//! A tree-walking evaluator over the tree.
//!
//! It evaluates the lowered tree: contracts arrive as `Stmt::Check` nodes, so
//! a failed one is a runtime error carrying its blame. It never panics on a
//! bad program — overflow, division by zero, a type mismatch or a bad call is
//! a `RuntimeError` anchored to a span. Calls may nest as deep as the
//! machine's stack allows: the evaluator counts the depth against
//! `MAX_CALL_DEPTH`, the whole `u64` range, which no run can reach.

use vstd::prelude::*;
use crate::ast::{BinaryOp, Block, Expr, Function, Item, LiteralKind, MatchArm, Module, Param, Pattern, Stmt};
use crate::codegen::{ctor_lookup, module_ctors};
use crate::diagnostic::Blame;
use crate::env::{lemma_define_keeps_outer, Env};
use crate::lower::{lower, lowered_module};
use crate::ops::{arithmetic, builtin_text, compare, equal, eval_unary, is_text_builtin};
use crate::semantics::{
    bind_params, ev_args, ev_arms, ev_block, ev_bool, ev_call, ev_expr, ev_function, ev_stmt, ev_stmts, first_entry, fn_entries,
    lemma_args_stable, lemma_bind_params_err, lemma_first_entry_stable, lemma_fn_entries, lemma_stmts_stable, lemma_tms_stable, lemma_try_arms_stable,
    tm, tms, try_arms, CtlV, Out,
};
use crate::span::Span;
use crate::text::{cat, copy_string, joined, names_view, owned, str_eq, string_is, usize_text};
use crate::types::fn_names;
use crate::value::{
    copy_value, err_view, lemma_same_value_view, plain_err, lemma_value_text_view, lemma_vviews, res_view, vview, vviews, ErrV, RuntimeError, Val,
    Value,
};

verus! {

/// The budget of call depth the evaluator counts against: the whole `u64`
/// range, so nesting is bounded by the machine's stack alone.
pub const MAX_CALL_DEPTH: u64 = 18446744073709551615;

/// How evaluation of a statement flows: on with a value, or out of the
/// enclosing body with a returned value.
enum Control {
    Normal(Value),
    Return(Value),
}

/// A function of the module, by name and position.
struct FnEntry {
    name: String,
    index: usize,
}

/// A sum-type constructor and its arity.
struct CtorEntry {
    name: String,
    arity: usize,
}

/// A tree-walking interpreter over a module's functions. Output of `print`
/// is collected, one entry per call, rather than written to stdout.
pub struct Interpreter<'m> {
    items: &'m [Item],
    funcs: Vec<FnEntry>,
    ctors: Vec<CtorEntry>,
    output: Vec<String>,
}

/// The module's functions have pairwise distinct names.
pub open spec fn unique_functions(items: Seq<Item>) -> bool {
    fn_names(items).no_duplicates()
}

/// The first function, in order, whose name an earlier function already
/// has: its name and the span of its signature.
pub open spec fn first_duplicate(items: Seq<Item>) -> Option<(Seq<char>, Span)>
    decreases items.len(),
{
    if items.len() == 0 {
        None
    } else {
        match first_duplicate(items.drop_last()) {
            Some(x) => Some(x),
            None => match items.last() {
                Item::Function(f) => if fn_names(items.drop_last()).contains(f.signature.name@) {
                    Some((f.signature.name@, f.signature.span))
                } else {
                    None
                },
                Item::Type(_) => None,
            },
        }
    }
}

/// What refusing a module whose function `name` is defined twice says.
pub open spec fn duplicate_message(name: Seq<char>) -> Seq<char> {
    "function `"@ + name + "` is defined more than once"@
}

proof fn lemma_first_duplicate_prefix(items: Seq<Item>, i: int)
    requires
        0 <= i <= items.len(),
        first_duplicate(items.subrange(0, i)) is Some,
    ensures
        first_duplicate(items) == first_duplicate(items.subrange(0, i)),
    decreases items.len() - i,
{
    if i == items.len() {
        assert(items.subrange(0, i) =~= items);
    } else {
        assert(items.subrange(0, i + 1).drop_last() =~= items.subrange(0, i));
        lemma_first_duplicate_prefix(items, i + 1);
    }
}

/// `new` extends `old`: what was there stays, in order.
pub open spec fn extends(old: Seq<String>, new: Seq<String>) -> bool {
    old.len() <= new.len() && forall|i: int| 0 <= i < old.len() ==> #[trigger] new[i] == old[i]
}

proof fn lemma_extends_trans(a: Seq<String>, b: Seq<String>, c: Seq<String>)
    requires
        extends(a, b),
        extends(b, c),
    ensures
        extends(a, c),
{
    assert forall|i: int| 0 <= i < a.len() implies #[trigger] c[i] == a[i] by {
        assert(b[i] == a[i]);
    }
}

proof fn lemma_fn_names_prefix(items: Seq<Item>, i: int)
    requires
        0 <= i <= items.len(),
    ensures
        fn_names(items.subrange(0, i)).len() <= fn_names(items).len(),
        fn_names(items).subrange(0, fn_names(items.subrange(0, i)).len() as int) == fn_names(items.subrange(0, i)),
    decreases items.len() - i,
{
    if i == items.len() {
        assert(items.subrange(0, i) =~= items);
        assert(fn_names(items).subrange(0, fn_names(items).len() as int) =~= fn_names(items));
    } else {
        lemma_fn_names_prefix(items, i + 1);
        assert(items.subrange(0, i + 1).drop_last() =~= items.subrange(0, i));
        let a = fn_names(items.subrange(0, i));
        let b = fn_names(items.subrange(0, i + 1));
        let c = fn_names(items);
        assert(b.subrange(0, a.len() as int) =~= a);
        assert(c.subrange(0, a.len() as int) =~= c.subrange(0, b.len() as int).subrange(0, a.len() as int));
    }
}

/// The plain data of a statement's completion.
spec fn ctl_view(r: Result<Control, RuntimeError>) -> Result<CtlV, ErrV> {
    match r {
        Ok(Control::Normal(v)) => Ok(CtlV::Normal(vview(v))),
        Ok(Control::Return(v)) => Ok(CtlV::Return(vview(v))),
        Err(e) => Err(err_view(e)),
    }
}

/// The plain data of a `Bool` result.
pub open spec fn bool_view(r: Result<bool, RuntimeError>) -> Result<bool, ErrV> {
    match r {
        Ok(b) => Ok(b),
        Err(e) => Err(err_view(e)),
    }
}

/// The plain data of a list result.
pub open spec fn list_view(r: Result<Vec<Value>, RuntimeError>) -> Result<Seq<Val>, ErrV> {
    match r {
        Ok(vs) => Ok(vviews(vs@)),
        Err(e) => Err(err_view(e)),
    }
}

/// Two environments hold the same bindings in the same scopes.
pub open spec fn env_same(a: Env, b: Env) -> bool {
    a.binds() == b.binds() && a.marks() == b.marks()
}

/// `b` has the scopes of `a`, and the bindings of `a` outside its innermost
/// scope.
pub open spec fn keeps_outer(a: Env, b: Env) -> bool {
    &&& b.marks() == a.marks()
    &&& b.binds().len() >= a.scope_start()
    &&& b.binds().subrange(0, a.scope_start()) == a.binds().subrange(0, a.scope_start())
}

impl<'m> Interpreter<'m> {
    /// The lines `print` has emitted so far.
    pub closed spec fn printed(&self) -> Seq<String> {
        self.output@
    }

    /// The items of the module being run.
    pub closed spec fn module_items(&self) -> Seq<Item> {
        self.items@
    }

    /// The function and constructor tables are those of the module.
    pub closed spec fn wf(&self) -> bool {
        &&& self.funcs@.map_values(|e: FnEntry| (e.name@, e.index as int)) == fn_entries(self.items@)
        &&& self.ctors@.map_values(|c: CtorEntry| (c.name@, c.arity as nat)) == module_ctors(self.items@)
    }

    /// What has been printed, as plain text.
    closed spec fn out(&self) -> Out {
        names_view(self.output@)
    }

    /// `b` runs the same module as `a`.
    closed spec fn same_module(a: Self, b: Self) -> bool {
        a.items == b.items && a.funcs@ == b.funcs@ && a.ctors@ == b.ctors@
    }

    /// An interpreter with no functions in scope, which has printed nothing.
    pub fn empty() -> (r: Interpreter<'static>)
        ensures
            r.wf(),
            r.module_items() == Seq::<Item>::empty(),
            r.printed().len() == 0,
    {
        let r = Interpreter { items: &[], funcs: Vec::new(), ctors: Vec::new(), output: Vec::new() };
        proof {
            assert(r.items@ =~= Seq::<Item>::empty());
            assert(r.funcs@.map_values(|e: FnEntry| (e.name@, e.index as int)) =~= fn_entries(r.items@));
            assert(r.ctors@.map_values(|c: CtorEntry| (c.name@, c.arity as nat)) =~= module_ctors(r.items@));
        }
        r
    }

    /// Build an interpreter from a module, indexing its functions by name.
    /// Two functions sharing a name are refused.
    pub fn new(module: &'m Module) -> (r: Result<Interpreter<'m>, RuntimeError>)
        ensures
            r is Ok <==> unique_functions(module.items@),
            r is Ok ==> r->Ok_0.printed().len() == 0 && r->Ok_0.wf() && r->Ok_0.module_items() == module.items@,
            r is Err ==> r->Err_0.code@ == "E1000"@ && r->Err_0.blame is None,
            r is Err ==> (first_duplicate(module.items@) matches Some((name, span)) && err_view(r->Err_0) == (
                "E1000"@,
                duplicate_message(name),
                span,
                None::<crate::diagnostic::Blame>,
            )),
    {
        let items = &module.items;
        let mut funcs: Vec<FnEntry> = Vec::new();
        let mut ctors: Vec<CtorEntry> = Vec::new();
        let n = items.len();
        let mut i: usize = 0;
        assert(fn_names(items@.subrange(0, 0)) =~= Seq::<Seq<char>>::empty());
        assert(items@.subrange(0, 0) =~= Seq::<Item>::empty());
        assert(funcs@.map_values(|e: FnEntry| (e.name@, e.index as int)) =~= fn_entries(items@.subrange(0, 0)));
        assert(ctors@.map_values(|c: CtorEntry| (c.name@, c.arity as nat)) =~= module_ctors(items@.subrange(0, 0)));
        while i < n
            invariant
                n == items@.len(),
                items@ == module.items@,
                i <= n,
                funcs@.map_values(|e: FnEntry| e.name@) == fn_names(items@.subrange(0, i as int)),
                fn_names(items@.subrange(0, i as int)).no_duplicates(),
                first_duplicate(items@.subrange(0, i as int)) is None,
                funcs@.map_values(|e: FnEntry| (e.name@, e.index as int)) == fn_entries(items@.subrange(0, i as int)),
                ctors@.map_values(|c: CtorEntry| (c.name@, c.arity as nat)) == module_ctors(items@.subrange(0, i as int)),
            decreases n - i,
        {
            assert(items@.subrange(0, i + 1).drop_last() =~= items@.subrange(0, i as int));
            assert(items@.subrange(0, i + 1).last() == items@[i as int]);
            let ghost names = funcs@.map_values(|e: FnEntry| e.name@);
            let ghost entries = funcs@.map_values(|e: FnEntry| (e.name@, e.index as int));
            let ghost cs = ctors@.map_values(|c: CtorEntry| (c.name@, c.arity as nat));
            match &items[i] {
                Item::Function(f) => {
                    let name = f.signature.name.as_str();
                    match find_entry(&funcs, name) {
                        Some(k) => {
                            proof {
                                let full = fn_names(items@);
                                let pre = fn_names(items@.subrange(0, i + 1));
                                lemma_fn_names_prefix(items@, i + 1);
                                assert(pre =~= names.push(name@));
                                assert(pre[k as int] == pre[pre.len() - 1]);
                                assert(full[k as int] == pre[k as int]);
                                assert(full[pre.len() - 1] == pre[pre.len() - 1]);
                                assert(k < pre.len() - 1);
                                assert(!full.no_duplicates());
                                assert(names[k as int] == name@);
                                assert(names.contains(name@));
                                assert(first_duplicate(items@.subrange(0, i + 1)) == Some((name@, f.signature.span)));
                                lemma_first_duplicate_prefix(items@, i + 1);
                            }
                            let m = cat(&["function `", name, "` is defined more than once"]);
                            proof {
                                reveal_with_fuel(joined, 4);
                                assert(m@ =~= duplicate_message(name@));
                            }
                            return Err(RuntimeError::with_message(f.signature.span, m));
                        },
                        None => {},
                    }
                    funcs.push(FnEntry { name: copy_string(&f.signature.name), index: i });
                    assert(funcs@.map_values(|e: FnEntry| e.name@) =~= names.push(name@));
                    assert(fn_names(items@.subrange(0, i + 1)) =~= names.push(name@));
                    assert(funcs@.map_values(|e: FnEntry| (e.name@, e.index as int)) =~= entries + seq![(name@, i as int)]);
                    assert(ctors@.map_values(|c: CtorEntry| (c.name@, c.arity as nat)) =~= cs + Seq::<(Seq<char>, nat)>::empty());
                },
                Item::Type(d) => {
                    let vs = &d.variants;
                    let m = vs.len();
                    let mut j: usize = 0;
                    assert(cs + vs@.subrange(0, 0).map_values(|v: crate::ast::Variant| (v.name@, v.fields@.len())) =~= cs);
                    while j < m
                        invariant
                            m == vs@.len(),
                            j <= m,
                            ctors@.map_values(|c: CtorEntry| (c.name@, c.arity as nat)) == cs + vs@.subrange(0, j as int).map_values(
                                |v: crate::ast::Variant| (v.name@, v.fields@.len()),
                            ),
                        decreases m - j,
                    {
                        let ghost before = ctors@.map_values(|c: CtorEntry| (c.name@, c.arity as nat));
                        ctors.push(CtorEntry { name: copy_string(&vs[j].name), arity: vs[j].fields.len() });
                        assert(ctors@.map_values(|c: CtorEntry| (c.name@, c.arity as nat)) =~= before.push(
                            (vs@[j as int].name@, vs@[j as int].fields@.len()),
                        ));
                        assert(vs@.subrange(0, j + 1).map_values(|v: crate::ast::Variant| (v.name@, v.fields@.len()))
                            =~= vs@.subrange(0, j as int).map_values(|v: crate::ast::Variant| (v.name@, v.fields@.len())).push(
                            (vs@[j as int].name@, vs@[j as int].fields@.len()),
                        ));
                        j = j + 1;
                    }
                    assert(vs@.subrange(0, m as int) =~= vs@);
                    assert(fn_names(items@.subrange(0, i + 1)) =~= names);
                    assert(funcs@.map_values(|e: FnEntry| (e.name@, e.index as int)) =~= entries + Seq::<(Seq<char>, int)>::empty());
                },
            }
            i = i + 1;
        }
        assert(items@.subrange(0, n as int) =~= items@);
        Ok(Interpreter { items: items.as_slice(), funcs, ctors, output: Vec::new() })
    }

    /// The lines emitted by `print` so far, in order.
    pub fn output(&self) -> (r: Vec<String>)
        ensures
            names_view(r@) == names_view(self.printed()),
    {
        let mut out: Vec<String> = Vec::new();
        let n = self.output.len();
        let mut i: usize = 0;
        while i < n
            invariant
                n == self.output@.len(),
                i <= n,
                names_view(out@) == names_view(self.output@.subrange(0, i as int)),
            decreases n - i,
        {
            let ghost before = out@;
            out.push(copy_string(&self.output[i]));
            assert(names_view(out@) =~= names_view(before).push(self.output@[i as int]@));
            assert(self.output@.subrange(0, i + 1) =~= self.output@.subrange(0, i as int).push(self.output@[i as int]));
            assert(names_view(out@) =~= names_view(self.output@.subrange(0, i + 1)));
            i = i + 1;
        }
        assert(self.output@.subrange(0, n as int) =~= self.output@);
        out
    }

    /// Call a function by name with already-evaluated arguments, with the
    /// full call-depth budget. What was printed before stays; the call may
    /// print more.
    pub fn call(&mut self, name: &str, args: Vec<Value>) -> (r: Result<Value, RuntimeError>)
        requires
            old(self).wf(),
        ensures
            final(self).wf(),
            final(self).module_items() == old(self).module_items(),
            extends(old(self).printed(), final(self).printed()),
            (res_view(r), names_view(final(self).printed())) == ev_call(
                old(self).module_items(),
                MAX_CALL_DEPTH as nat,
                0,
                name@,
                vviews(args@),
                Span { start: 0, end: 0 },
                names_view(old(self).printed()),
            ),
    {
        let site: Ghost<nat> = Ghost(0);
        self.call_by_name(name, args, Span { start: 0, end: 0 }, MAX_CALL_DEPTH, site)
    }

    /// The constructor arity of `name` (the last declaration of it wins).
    fn ctor_arity(&self, name: &str) -> (r: Option<usize>)
        requires
            self.wf(),
        ensures
            match r {
                Some(k) => ctor_lookup(module_ctors(self.items@), name@) == Some(k as nat),
                None => ctor_lookup(module_ctors(self.items@), name@) is None,
            },
    {
        let ghost cs = module_ctors(self.items@);
        let mut i = self.ctors.len();
        assert(cs.subrange(0, i as int) =~= cs);
        while i > 0
            invariant
                i <= self.ctors@.len(),
                cs == self.ctors@.map_values(|c: CtorEntry| (c.name@, c.arity as nat)),
                cs == module_ctors(self.items@),
                ctor_lookup(cs, name@) == ctor_lookup(cs.subrange(0, i as int), name@),
            decreases i,
        {
            assert(cs.subrange(0, i as int).drop_last() =~= cs.subrange(0, i - 1));
            assert(cs.subrange(0, i as int).last() == cs[i - 1]);
            assert(cs[i - 1] == (self.ctors@[i - 1].name@, self.ctors@[i - 1].arity as nat));
            if string_is(&self.ctors[i - 1].name, name) {
                return Some(self.ctors[i - 1].arity);
            }
            i = i - 1;
        }
        None
    }

    /// The position of the function named `name`.
    fn func_index(&self, name: &str) -> (r: Option<usize>)
        requires
            self.wf(),
        ensures
            match r {
                Some(k) => crate::semantics::fn_pos(self.items@, name@) == Some(k as int) && k < self.items@.len(),
                None => crate::semantics::fn_pos(self.items@, name@) is None,
            },
    {
        let ghost es = fn_entries(self.items@);
        proof {
            lemma_fn_entries(self.items@);
        }
        let n = self.funcs.len();
        let mut i: usize = 0;
        assert(es.subrange(0, 0) =~= Seq::<(Seq<char>, int)>::empty());
        while i < n
            invariant
                n == self.funcs@.len(),
                i <= n,
                es == self.funcs@.map_values(|e: FnEntry| (e.name@, e.index as int)),
                es == fn_entries(self.items@),
                first_entry(es.subrange(0, i as int), name@) is None,
            decreases n - i,
        {
            proof {
                lemma_fn_entries(self.items@);
            }
            assert(es.subrange(0, i + 1).drop_last() =~= es.subrange(0, i as int));
            assert(es.subrange(0, i + 1).last() == es[i as int]);
            assert(es[i as int] == (self.funcs@[i as int].name@, self.funcs@[i as int].index as int));
            assert(fn_entries(self.items@)[i as int].1 < self.items@.len());
            if string_is(&self.funcs[i].name, name) {
                proof {
                    lemma_first_entry_stable(es, name@, i + 1);
                }
                return Some(self.funcs[i].index);
            }
            i = i + 1;
        }
        assert(es.subrange(0, n as int) =~= es);
        None
    }

    fn emit(&mut self, line: String)
        ensures
            extends(old(self).printed(), final(self).printed()),
            Self::same_module(*old(self), *final(self)),
            final(self).output@ == old(self).output@.push(line),
    {
        let ghost before = self.output@;
        self.output.push(line);
        assert forall|i: int| 0 <= i < before.len() implies #[trigger] self.output@[i] == before[i] by {}
    }
}

impl<'m> Interpreter<'m> {
    #[verifier::rlimit(100)]
    #[verifier::spinoff_prover]
    fn call_by_name(&mut self, name: &str, args: Vec<Value>, span: Span, fuel: u64, Ghost(site): Ghost<nat>) -> (r: Result<Value, RuntimeError>)
        requires
            old(self).wf(),
        ensures
            final(self).wf(),
            Self::same_module(*old(self), *final(self)),
            extends(old(self).printed(), final(self).printed()),
            (res_view(r), final(self).out()) == ev_call(old(self).items@, fuel as nat, site, name@, vviews(args@), span, old(self).out()),
        decreases fuel, site, 3int,
    {
        proof {
            lemma_vviews(args@);
        }
        match self.func_index(name) {
            Some(k) => {
                let items = self.items;
                match &items[k] {
                    Item::Function(f) => return self.call_function(f, args, span, fuel, Ghost(site)),
                    Item::Type(_) => {},
                }
            },
            None => {},
        }
        if str_eq(name, "print") {
            if args.len() != 1 {
                let g = usize_text(args.len());
                let m = cat(&["`print` expects 1 argument, got ", g.as_str()]);
                proof {
                    reveal_with_fuel(crate::text::joined, 3);
                }
                return Err(RuntimeError::with_message(span, m));
            }
            let line = args[0].to_text();
            proof {
                lemma_value_text_view(args@[0]);
            }
            let ghost o0 = self.out();
            self.emit(line);
            assert(self.out() =~= o0.push(line@));
            return Ok(Value::Unit);
        }
        if str_eq(name, "sanitize") {
            if args.len() != 2 {
                let g = usize_text(args.len());
                let m = cat(&["`sanitize` expects 2 arguments, got ", g.as_str()]);
                proof {
                    reveal_with_fuel(crate::text::joined, 3);
                }
                return Err(RuntimeError::with_message(span, m));
            }
            let validator = match &args[1] {
                Value::Function { name: v } => copy_string(v),
                other => {
                    let m = cat(&["`sanitize` expects a validator function, got ", other.type_label()]);
                    proof {
                        reveal_with_fuel(crate::text::joined, 3);
                        lemma_value_text_view(*other);
                    }
                    return Err(RuntimeError::with_message(span, m));
                },
            };
            let value = copy_value(&args[0]);
            let mut vargs: Vec<Value> = Vec::new();
            vargs.push(copy_value(&args[0]));
            proof {
                lemma_same_value_view(value, args@[0]);
                lemma_same_value_view(vargs@[0], args@[0]);
                lemma_vviews(vargs@);
                assert(vviews(vargs@) =~= seq![vview(args@[0])]);
            }
            let verdict = match self.func_index(validator.as_str()) {
                Some(k) => {
                    let items = self.items;
                    match &items[k] {
                        Item::Function(f) => match self.call_function(f, vargs, span, fuel, Ghost(site)) {
                            Ok(v) => v,
                            Err(e) => return Err(e),
                        },
                        Item::Type(_) => {
                            return Err(RuntimeError::new(span, "`sanitize` validator is not a function"));
                        },
                    }
                },
                None => {
                    let m = cat(&["unknown function `", validator.as_str(), "`"]);
                    proof {
                        reveal_with_fuel(crate::text::joined, 4);
                    }
                    return Err(RuntimeError::with_message(span, m));
                },
            };
            return match verdict {
                Value::Bool(true) => {
                    let mut fields: Vec<Value> = Vec::new();
                    fields.push(value);
                    proof {
                        lemma_vviews(fields@);
                        assert(vviews(fields@) =~= seq![vview(args@[0])]);
                    }
                    Ok(Value::Variant { name: owned("Some"), fields })
                },
                Value::Bool(false) => {
                    let fields: Vec<Value> = Vec::new();
                    proof {
                        lemma_vviews(fields@);
                        assert(vviews(fields@) =~= Seq::<Val>::empty());
                    }
                    Ok(Value::Variant { name: owned("None"), fields })
                },
                other => {
                    let m = cat(&["`sanitize` validator must return a Bool, found ", other.type_label()]);
                    proof {
                        reveal_with_fuel(crate::text::joined, 3);
                        lemma_value_text_view(other);
                    }
                    Err(RuntimeError::with_message(span, m))
                },
            };
        }
        if str_eq(name, "concat") || str_eq(name, "text_len") || str_eq(name, "char_at") || str_eq(name, "substring")
            || str_eq(name, "char_code") || str_eq(name, "code_char") {
            return builtin_text(name, &args, span);
        }
        proof {
            assert(!is_text_builtin(name@));
        }
        let m = cat(&["unknown function `", name, "`"]);
        proof {
            reveal_with_fuel(crate::text::joined, 4);
        }
        Err(RuntimeError::with_message(span, m))
    }

    fn call_function(&mut self, func: &Function, args: Vec<Value>, span: Span, fuel: u64, Ghost(site): Ghost<nat>) -> (r: Result<Value, RuntimeError>)
        requires
            old(self).wf(),
        ensures
            final(self).wf(),
            Self::same_module(*old(self), *final(self)),
            extends(old(self).printed(), final(self).printed()),
            (res_view(r), final(self).out()) == ev_function(old(self).items@, fuel as nat, site, *func, vviews(args@), span, old(self).out()),
        decreases fuel, site, 2int,
    {
        proof {
            lemma_vviews(args@);
        }
        let params = &func.signature.params;
        if args.len() != params.len() {
            let p = usize_text(params.len());
            let g = usize_text(args.len());
            let m = cat(&["function `", func.signature.name.as_str(), "` expects ", p.as_str(), " argument(s), got ", g.as_str()]);
            proof {
                reveal_with_fuel(crate::text::joined, 7);
            }
            return Err(RuntimeError::with_message(span, m));
        }
        if fuel == 0 {
            return Err(RuntimeError::new(span, "call depth limit exceeded"));
        }
        let ghost vs = vviews(args@);
        let mut env = Env::new();
        let n = params.len();
        let mut i: usize = 0;
        assert(env.binds() =~= Seq::<crate::env::Bind>::empty());
        assert(params@.subrange(0, 0) =~= Seq::<crate::ast::Param>::empty());
        while i < n
            invariant
                n == params@.len(),
                params@ == func.signature.params@,
                n == args@.len(),
                i <= n,
                vs == vviews(args@),
                vs.len() == n,
                forall|j: int| 0 <= j < n ==> #[trigger] vs[j] == vview(args@[j]),
                env.wf(),
                env.marks().len() == 1,
                env.scope_start() == 0,
                bind_params(params@.subrange(0, i as int), vs.subrange(0, i as int)) == Ok::<Seq<crate::env::Bind>, ErrV>(env.binds()),
                self.wf(),
                Self::same_module(*old(self), *self),
                self.output@ == old(self).output@,
                fuel > 0,
            decreases n - i,
        {
            let ghost q = params@.subrange(0, i + 1);
            proof {
                assert(q.drop_last() =~= params@.subrange(0, i as int));
                assert(vs.subrange(0, i + 1).subrange(0, i as int) =~= vs.subrange(0, i as int));
                assert(q.last() == params@[i as int]);
            }
            let p = &params[i];
            let v = copy_value(&args[i]);
            proof {
                lemma_same_value_view(v, args@[i as int]);
            }
            match env.define(p.name.as_str(), v, false) {
                Ok(()) => {},
                Err(m) => {
                    proof {
                        let w = vs.subrange(0, i + 1);
                        assert(w.subrange(0, i as int) =~= vs.subrange(0, i as int));
                        assert(w[i as int] == vview(v));
                        assert(crate::env::define_v(env.binds(), 0, p.name@, vview(v), false) == Err::<Seq<crate::env::Bind>, Seq<char>>(m@));
                        assert(bind_params(q, w) == Err::<Seq<crate::env::Bind>, ErrV>(plain_err(p.span, m@)));
                        lemma_bind_params_err(params@, vs, i as int + 1);
                        assert(params@.subrange(0, n as int) =~= params@);
                        assert(vs.subrange(0, n as int) =~= vs);
                        assert(bind_params(params@, vs) == Err::<Seq<crate::env::Bind>, ErrV>(plain_err(p.span, m@)));
                        assert(self.out() == old(self).out());
                    }
                    let e = RuntimeError::with_message(p.span, m);
                    proof {
                        assert(err_view(e) == plain_err(p.span, m@));
                        assert(ev_function(old(self).items@, fuel as nat, site, *func, vs, span, old(self).out())
                            == (Err::<Val, ErrV>(plain_err(p.span, m@)), old(self).out()));
                    }
                    return Err(e);
                },
            }
            i = i + 1;
        }
        assert(params@.subrange(0, n as int) =~= params@);
        assert(vs.subrange(0, n as int) =~= vs);
        let r = self.run_block(&func.body.stmts, &mut env, fuel - 1);
        match r {
            Ok(Control::Normal(v)) => Ok(v),
            Ok(Control::Return(v)) => Ok(v),
            Err(e) => Err(e),
        }
    }

    /// Run a block's statements in a nested scope; a `return` propagates out.
    fn run_block(&mut self, stmts: &Vec<Stmt>, env: &mut Env, fuel: u64) -> (r: Result<Control, RuntimeError>)
        requires
            old(env).wf(),
            old(self).wf(),
        ensures
            final(env).wf(),
            env_same(*final(env), *old(env)),
            final(self).wf(),
            Self::same_module(*old(self), *final(self)),
            extends(old(self).printed(), final(self).printed()),
            (ctl_view(r), final(self).out()) == ev_block(old(self).items@, fuel as nat, stmts@, old(env).binds(), old(self).out()),
        decreases fuel, crate::ast::stmts_size(stmts@), 1int,
    {
        let ghost e0 = *env;
        env.push_scope();
        let ghost ep = *env;
        proof {
            assert(ep.scope_start() == e0.bindings().len());
            assert(ep.binds() == e0.binds());
        }
        let r = self.run_stmts(stmts, env, fuel);
        let ghost e1 = *env;
        env.pop_scope();
        proof {
            assert(env.binds() =~= e1.binds().subrange(0, e1.scope_start()));
            assert(e0.binds().len() == e0.bindings().len());
            assert(e1.scope_start() == e0.binds().len());
            assert(e0.binds().subrange(0, e0.binds().len() as int) =~= e0.binds());
            assert(ep.marks().drop_last() =~= e0.marks());
            assert(env.marks() == e0.marks());
            assert(env.binds() == e0.binds());
        }
        match r {
            Ok(Control::Normal(_)) => Ok(Control::Normal(Value::Unit)),
            _ => r,
        }
    }

    fn run_stmts(&mut self, stmts: &Vec<Stmt>, env: &mut Env, fuel: u64) -> (r: Result<Control, RuntimeError>)
        requires
            old(env).wf(),
            old(self).wf(),
        ensures
            final(env).wf(),
            keeps_outer(*old(env), *final(env)),
            final(self).wf(),
            Self::same_module(*old(self), *final(self)),
            extends(old(self).printed(), final(self).printed()),
            (ctl_view(r), final(env).binds(), final(self).out()) == ev_stmts(
                old(self).items@,
                fuel as nat,
                stmts@,
                old(env).binds(),
                old(env).scope_start(),
                old(self).out(),
            ),
        decreases fuel, crate::ast::stmts_size(stmts@), 0int,
    {
        let ghost out0 = self.printed();
        let ghost o0 = self.out();
        let ghost e0 = *env;
        let ghost items = self.items@;
        let mut last = Value::Unit;
        let n = stmts.len();
        let mut i: usize = 0;
        assert(stmts@.subrange(0, 0) =~= Seq::<Stmt>::empty());
        assert(e0.binds().subrange(0, e0.scope_start()) =~= e0.binds().subrange(0, e0.scope_start()));
        while i < n
            invariant
                n == stmts@.len(),
                i <= n,
                env.wf(),
                keeps_outer(e0, *env),
                e0 == *old(env),
                out0 == old(self).printed(),
                o0 == old(self).out(),
                items == old(self).items@,
                extends(out0, self.printed()),
                self.wf(),
                Self::same_module(*old(self), *self),
                ev_stmts(items, fuel as nat, stmts@.subrange(0, i as int), e0.binds(), e0.scope_start(), o0) == (
                    Ok::<CtlV, ErrV>(CtlV::Normal(vview(last))),
                    env.binds(),
                    self.out(),
                ),
            decreases n - i,
        {
            let ghost before = self.printed();
            let ghost q = stmts@.subrange(0, i + 1);
            proof {
                crate::ast::lemma_stmts_size(stmts@, i as int);
                assert(q.subrange(0, q.len() - 1) =~= stmts@.subrange(0, i as int));
                assert(q[q.len() - 1] == stmts@[i as int]);
            }
            let ghost e1 = *env;
            let c = self.eval_stmt(&stmts[i], env, fuel);
            proof {
                lemma_extends_trans(out0, before, self.printed());
                assert(e1.scope_start() == e0.scope_start());
                assert(env.binds().subrange(0, e0.scope_start()) =~= e1.binds().subrange(0, e0.scope_start()));
            }
            match c {
                Ok(Control::Normal(v)) => {
                    last = v;
                },
                Ok(Control::Return(v)) => {
                    proof {
                        lemma_stmts_stable(items, fuel as nat, stmts@, e0.binds(), e0.scope_start(), o0, i + 1);
                    }
                    return Ok(Control::Return(v));
                },
                Err(e) => {
                    proof {
                        lemma_stmts_stable(items, fuel as nat, stmts@, e0.binds(), e0.scope_start(), o0, i + 1);
                    }
                    return Err(e);
                },
            }
            i = i + 1;
        }
        assert(stmts@.subrange(0, n as int) =~= stmts@);
        Ok(Control::Normal(last))
    }

    fn eval_stmt(&mut self, stmt: &Stmt, env: &mut Env, fuel: u64) -> (r: Result<Control, RuntimeError>)
        requires
            old(env).wf(),
            old(self).wf(),
        ensures
            final(env).wf(),
            keeps_outer(*old(env), *final(env)),
            final(self).wf(),
            Self::same_module(*old(self), *final(self)),
            extends(old(self).printed(), final(self).printed()),
            (ctl_view(r), final(env).binds(), final(self).out()) == ev_stmt(
                old(self).items@,
                fuel as nat,
                *stmt,
                old(env).binds(),
                old(env).scope_start(),
                old(self).out(),
            ),
        decreases fuel, crate::ast::stmt_size(*stmt), 2int,
    {
        let ghost e0 = *env;
        proof {
            assert(e0.binds().subrange(0, e0.scope_start()) =~= e0.binds().subrange(0, e0.scope_start()));
        }
        match stmt {
            Stmt::Let { name, mutable, value, span, .. } => {
                let v = match self.eval_expr_in(value, env, fuel) {
                    Ok(v) => v,
                    Err(e) => return Err(e),
                };
                proof {
                    lemma_define_keeps_outer(env.binds(), env.scope_start(), name@, vview(v), *mutable);
                }
                match env.define(name.as_str(), v, *mutable) {
                    Ok(()) => Ok(Control::Normal(Value::Unit)),
                    Err(m) => Err(RuntimeError::with_message(*span, m)),
                }
            },
            Stmt::Expr(e) => {
                let v = match self.eval_expr_in(e, env, fuel) {
                    Ok(v) => v,
                    Err(x) => return Err(x),
                };
                Ok(Control::Normal(v))
            },
            Stmt::Return { value, .. } => {
                let v = match value {
                    Some(e) => match self.eval_expr_in(e, env, fuel) {
                        Ok(v) => v,
                        Err(x) => return Err(x),
                    },
                    None => Value::Unit,
                };
                Ok(Control::Return(v))
            },
            Stmt::If { cond, then_block, else_block, .. } => {
                let ghost out0 = self.printed();
                let c = match self.eval_bool(cond, env, fuel) {
                    Ok(c) => c,
                    Err(x) => return Err(x),
                };
                let ghost out1 = self.printed();
                if c {
                    let r = self.run_block(&then_block.stmts, env, fuel);
                    proof {
                        lemma_extends_trans(out0, out1, self.printed());
                    }
                    r
                } else {
                    match else_block {
                        Some(b) => {
                            let r = self.run_block(&b.stmts, env, fuel);
                            proof {
                                lemma_extends_trans(out0, out1, self.printed());
                            }
                            r
                        },
                        None => Ok(Control::Normal(Value::Unit)),
                    }
                }
            },
            Stmt::Check { predicate, blame, span } => {
                let ok = match self.eval_bool(predicate, env, fuel) {
                    Ok(b) => b,
                    Err(x) => return Err(x),
                };
                if ok {
                    Ok(Control::Normal(Value::Unit))
                } else {
                    Err(match blame {
                        Blame::Caller => RuntimeError::precondition(*span),
                        Blame::Implementation => RuntimeError::postcondition(*span),
                    })
                }
            },
        }
    }
}

impl<'m> Interpreter<'m> {
    /// Evaluate an expression that must be a `Bool`.
    fn eval_bool(&mut self, expr: &Expr, env: &mut Env, fuel: u64) -> (r: Result<bool, RuntimeError>)
        requires
            old(env).wf(),
            old(self).wf(),
        ensures
            final(env).wf(),
            env_same(*final(env), *old(env)),
            final(self).wf(),
            Self::same_module(*old(self), *final(self)),
            extends(old(self).printed(), final(self).printed()),
            (bool_view(r), final(self).out()) == ev_bool(old(self).items@, fuel as nat, *expr, old(env).binds(), old(self).out()),
        decreases fuel, crate::ast::expr_size(*expr), 6int,
    {
        match self.eval_expr_in(expr, env, fuel) {
            Ok(Value::Bool(b)) => Ok(b),
            Ok(other) => {
                let m = cat(&["expected a Bool, found ", other.type_label()]);
                proof {
                    reveal_with_fuel(crate::text::joined, 3);
                    lemma_value_text_view(other);
                }
                Err(RuntimeError::with_message(expr.span(), m))
            },
            Err(e) => Err(e),
        }
    }

    fn eval_args(&mut self, args: &Vec<Expr>, env: &mut Env, fuel: u64) -> (r: Result<Vec<Value>, RuntimeError>)
        requires
            old(env).wf(),
            old(self).wf(),
        ensures
            final(env).wf(),
            env_same(*final(env), *old(env)),
            final(self).wf(),
            Self::same_module(*old(self), *final(self)),
            extends(old(self).printed(), final(self).printed()),
            (list_view(r), final(self).out()) == ev_args(old(self).items@, fuel as nat, args@, old(env).binds(), old(self).out()),
        decreases fuel, crate::ast::exprs_size(args@), 4int,
    {
        let ghost out0 = self.printed();
        let ghost o0 = self.out();
        let ghost e0 = *env;
        let ghost items = self.items@;
        let mut values: Vec<Value> = Vec::new();
        let n = args.len();
        let mut i: usize = 0;
        assert(args@.subrange(0, 0) =~= Seq::<Expr>::empty());
        proof {
            lemma_vviews(values@);
            assert(vviews(values@) =~= Seq::<Val>::empty());
        }
        while i < n
            invariant
                n == args@.len(),
                i <= n,
                env.wf(),
                env_same(*env, e0),
                e0 == *old(env),
                out0 == old(self).printed(),
                o0 == old(self).out(),
                items == old(self).items@,
                extends(out0, self.printed()),
                self.wf(),
                Self::same_module(*old(self), *self),
                values@.len() == i,
                ev_args(items, fuel as nat, args@.subrange(0, i as int), e0.binds(), o0) == (
                    Ok::<Seq<Val>, ErrV>(vviews(values@)),
                    self.out(),
                ),
            decreases n - i,
        {
            let ghost before = self.printed();
            let ghost q = args@.subrange(0, i + 1);
            proof {
                crate::ast::lemma_exprs_size(args@, i as int);
                assert(q.subrange(0, q.len() - 1) =~= args@.subrange(0, i as int));
                assert(q[q.len() - 1] == args@[i as int]);
            }
            let v = self.eval_expr_in(&args[i], env, fuel);
            proof {
                lemma_extends_trans(out0, before, self.printed());
            }
            match v {
                Ok(v) => {
                    let ghost vs0 = values@;
                    values.push(v);
                    proof {
                        lemma_vviews(vs0);
                        lemma_vviews(values@);
                        assert(vviews(values@) =~= vviews(vs0).push(vview(values@[i as int])));
                    }
                },
                Err(e) => {
                    proof {
                        lemma_args_stable(items, fuel as nat, args@, e0.binds(), o0, i + 1);
                    }
                    return Err(e);
                },
            }
            i = i + 1;
        }
        assert(args@.subrange(0, n as int) =~= args@);
        Ok(values)
    }

    /// Evaluate an expression in the given environment.
    fn eval_expr_in(&mut self, expr: &Expr, env: &mut Env, fuel: u64) -> (r: Result<Value, RuntimeError>)
        requires
            old(env).wf(),
            old(self).wf(),
        ensures
            final(env).wf(),
            env_same(*final(env), *old(env)),
            final(self).wf(),
            Self::same_module(*old(self), *final(self)),
            extends(old(self).printed(), final(self).printed()),
            (res_view(r), final(self).out()) == ev_expr(old(self).items@, fuel as nat, *expr, old(env).binds(), old(self).out()),
        decreases fuel, crate::ast::expr_size(*expr), 5int,
    {
        let ghost out0 = self.printed();
        match expr {
            Expr::Literal(lit) => Ok(match &lit.kind {
                LiteralKind::Int(n) => Value::Int(*n),
                LiteralKind::Bool(b) => Value::Bool(*b),
                LiteralKind::Text(s) => Value::Text(copy_string(s)),
            }),
            Expr::Unary { op, operand, span } => {
                let v = match self.eval_expr_in(operand, env, fuel) {
                    Ok(v) => v,
                    Err(e) => return Err(e),
                };
                eval_unary(*op, &v, *span)
            },
            Expr::Binary { op, left, right, span } => {
                match op {
                    BinaryOp::And => {
                        let l = match self.eval_bool(left, env, fuel) {
                            Ok(l) => l,
                            Err(e) => return Err(e),
                        };
                        if !l {
                            return Ok(Value::Bool(false));
                        }
                        let ghost mid = self.printed();
                        let r = self.eval_bool(right, env, fuel);
                        proof {
                            lemma_extends_trans(out0, mid, self.printed());
                        }
                        return match r {
                            Ok(b) => Ok(Value::Bool(b)),
                            Err(e) => Err(e),
                        };
                    },
                    BinaryOp::Or => {
                        let l = match self.eval_bool(left, env, fuel) {
                            Ok(l) => l,
                            Err(e) => return Err(e),
                        };
                        if l {
                            return Ok(Value::Bool(true));
                        }
                        let ghost mid = self.printed();
                        let r = self.eval_bool(right, env, fuel);
                        proof {
                            lemma_extends_trans(out0, mid, self.printed());
                        }
                        return match r {
                            Ok(b) => Ok(Value::Bool(b)),
                            Err(e) => Err(e),
                        };
                    },
                    _ => {},
                }
                let l = match self.eval_expr_in(left, env, fuel) {
                    Ok(l) => l,
                    Err(e) => return Err(e),
                };
                let ghost mid = self.printed();
                let r = self.eval_expr_in(right, env, fuel);
                proof {
                    lemma_extends_trans(out0, mid, self.printed());
                }
                let r = match r {
                    Ok(r) => r,
                    Err(e) => return Err(e),
                };
                match op {
                    BinaryOp::Add | BinaryOp::Sub | BinaryOp::Mul | BinaryOp::Div | BinaryOp::Rem => {
                        arithmetic(*op, &l, &r, *span)
                    },
                    BinaryOp::Lt | BinaryOp::Le | BinaryOp::Gt | BinaryOp::Ge => compare(*op, &l, &r, *span),
                    BinaryOp::Eq => match equal(&l, &r, *span) {
                        Ok(b) => Ok(Value::Bool(b)),
                        Err(e) => Err(e),
                    },
                    _ => match equal(&l, &r, *span) {
                        Ok(b) => Ok(Value::Bool(!b)),
                        Err(e) => Err(e),
                    },
                }
            },
            Expr::Identifier { name, span } => {
                match env.lookup(name.as_str()) {
                    Some(v) => return Ok(v),
                    None => {},
                }
                match self.ctor_arity(name.as_str()) {
                    Some(0) => {
                        let fields: Vec<Value> = Vec::new();
                        proof {
                            assert(vviews(fields@) =~= Seq::<Val>::empty());
                        }
                        return Ok(Value::Variant { name: copy_string(name), fields });
                    },
                    _ => {},
                }
                if self.func_index(name.as_str()).is_some() {
                    return Ok(Value::Function { name: copy_string(name) });
                }
                let m = cat(&["unbound variable `", name.as_str(), "`"]);
                proof {
                    reveal_with_fuel(crate::text::joined, 4);
                }
                Err(RuntimeError::with_message(*span, m))
            },
            Expr::Call { .. } => self.eval_call(expr, env, fuel),
            Expr::Match { scrutinee, arms, span } => {
                let value = match self.eval_expr_in(scrutinee, env, fuel) {
                    Ok(v) => v,
                    Err(e) => return Err(e),
                };
                let ghost mid = self.printed();
                let r = self.eval_arms(arms, &value, *span, env, fuel);
                proof {
                    lemma_extends_trans(out0, mid, self.printed());
                }
                r
            },
            Expr::Member { span, .. } => Err(RuntimeError::new(*span, "module member access is not resolved yet")),
        }
    }

    /// Evaluate a call expression.
    fn eval_call(&mut self, expr: &Expr, env: &mut Env, fuel: u64) -> (r: Result<Value, RuntimeError>)
        requires
            old(env).wf(),
            old(self).wf(),
            expr is Call,
        ensures
            final(env).wf(),
            env_same(*final(env), *old(env)),
            final(self).wf(),
            Self::same_module(*old(self), *final(self)),
            extends(old(self).printed(), final(self).printed()),
            (res_view(r), final(self).out()) == ev_expr(old(self).items@, fuel as nat, *expr, old(env).binds(), old(self).out()),
        decreases fuel, crate::ast::expr_size(*expr), 4int,
    {
        let ghost out0 = self.printed();
        let (callee, type_args, args, span) = match expr {
            Expr::Call { callee, type_args, args, span } => (callee, type_args, args, *span),
            _ => {
                return Err(RuntimeError::new(Span { start: 0, end: 0 }, "only named functions can be called"));
            },
        };
        let name = match &**callee {
            Expr::Identifier { name, .. } => name,
            _ => return Err(RuntimeError::new(span, "only named functions can be called")),
        };
        let values = match self.eval_args(args, env, fuel) {
            Ok(vs) => vs,
            Err(e) => return Err(e),
        };
        let ghost mid = self.printed();
        proof {
            lemma_vviews(values@);
        }
        if string_is(name, "grant") {
            let authority = if type_args.len() > 0 {
                copy_string(&type_args[0].name)
            } else {
                owned("Root")
            };
            return Ok(Value::Capability { authority });
        }
        match self.ctor_arity(name.as_str()) {
            Some(arity) => {
                if values.len() != arity {
                    let a = usize_text(arity);
                    let g = usize_text(values.len());
                    let m = cat(&["constructor `", name.as_str(), "` expects ", a.as_str(), " argument(s), got ", g.as_str()]);
                    proof {
                        reveal_with_fuel(crate::text::joined, 7);
                    }
                    return Err(RuntimeError::with_message(span, m));
                }
                return Ok(Value::Variant { name: copy_string(name), fields: values });
            },
            None => {},
        }
        // A call through a local holding a function value.
        let target = match env.lookup(name.as_str()) {
            Some(Value::Function { name: f }) => f,
            Some(other) => {
                let m = cat(&["`", name.as_str(), "` is not a function (it is a ", other.type_label(), ")"]);
                proof {
                    reveal_with_fuel(crate::text::joined, 6);
                    lemma_value_text_view(other);
                }
                return Err(RuntimeError::with_message(span, m));
            },
            None => copy_string(name),
        };
        let r = self.call_by_name(target.as_str(), values, span, fuel, Ghost(crate::ast::expr_size(*expr)));
        proof {
            lemma_extends_trans(out0, mid, self.printed());
        }
        r
    }

    /// Evaluate the first arm whose pattern matches `value`.
    fn eval_arms(&mut self, arms: &Vec<MatchArm>, value: &Value, span: Span, env: &mut Env, fuel: u64) -> (r: Result<Value, RuntimeError>)
        requires
            old(env).wf(),
            old(self).wf(),
        ensures
            final(env).wf(),
            env_same(*final(env), *old(env)),
            final(self).wf(),
            Self::same_module(*old(self), *final(self)),
            extends(old(self).printed(), final(self).printed()),
            (res_view(r), final(self).out()) == ev_arms(old(self).items@, fuel as nat, arms@, vview(*value), span, old(env).binds(), old(self).out()),
        decreases fuel, crate::ast::arms_size(arms@), 4int,
    {
        let ghost e0 = *env;
        let ghost o0 = self.out();
        let ghost items = self.items@;
        let n = arms.len();
        let mut i: usize = 0;
        assert(arms@.subrange(0, 0) =~= Seq::<MatchArm>::empty());
        while i < n
            invariant
                n == arms@.len(),
                i <= n,
                env.wf(),
                env_same(*env, e0),
                e0 == *old(env),
                o0 == old(self).out(),
                items == old(self).items@,
                self.printed() == old(self).printed(),
                self.wf(),
                Self::same_module(*old(self), *self),
                try_arms(items, fuel as nat, arms@.subrange(0, i as int), vview(*value), e0.binds(), o0) is None,
            decreases n - i,
        {
            let ghost q = arms@.subrange(0, i + 1);
            proof {
                crate::ast::lemma_arms_size(arms@, i as int);
                assert(q.subrange(0, q.len() - 1) =~= arms@.subrange(0, i as int));
                assert(q[q.len() - 1] == arms@[i as int]);
            }
            env.push_scope();
            let ghost e1 = *env;
            proof {
                assert(e1.scope_start() == e0.bindings().len());
                assert(e1.binds() == e0.binds());
                assert(e1.marks().drop_last() =~= e0.marks());
            }
            if self.try_match(&arms[i].pattern, value, env) {
                let ghost e2 = *env;
                let r = self.eval_expr_in(&arms[i].body, env, fuel);
                let ghost e3 = *env;
                env.pop_scope();
                proof {
                    assert(e1.binds() == e0.binds());
                    assert(e0.binds().len() == e0.bindings().len());
                    assert(e1.scope_start() == e0.binds().len());
                    assert(env.binds() =~= e3.binds().subrange(0, e3.scope_start()));
                    assert(e3.binds() == e2.binds());
                    assert(e0.binds().subrange(0, e0.binds().len() as int) =~= e0.binds());
                    lemma_try_arms_stable(items, fuel as nat, arms@, vview(*value), e0.binds(), o0, i + 1);
                }
                return r;
            }
            let ghost e2 = *env;
            env.pop_scope();
            proof {
                assert(e0.binds().len() == e0.bindings().len());
                assert(env.binds() =~= e2.binds().subrange(0, e2.scope_start()));
                assert(e0.binds().subrange(0, e0.binds().len() as int) =~= e0.binds());
            }
            i = i + 1;
        }
        assert(arms@.subrange(0, n as int) =~= arms@);
        let t = value.to_text();
        let m = cat(&["no match arm covers the value `", t.as_str(), "`"]);
        proof {
            reveal_with_fuel(crate::text::joined, 4);
            lemma_value_text_view(*value);
        }
        Err(RuntimeError::with_message(span, m))
    }

    /// Try to match `pattern` against `value`, binding captured names in the
    /// current scope. A bare name is a payload-free variant test when it names
    /// one, otherwise a binding.
    fn try_match(&self, pattern: &Pattern, value: &Value, env: &mut Env) -> (r: bool)
        requires
            old(env).wf(),
            self.wf(),
        ensures
            final(env).wf(),
            keeps_outer(*old(env), *final(env)),
            (r, final(env).binds()) == tm(self.items@, *pattern, vview(*value), old(env).binds(), old(env).scope_start()),
        decreases pattern, 1int,
    {
        let ghost e0 = *env;
        proof {
            assert(e0.binds().subrange(0, e0.scope_start()) =~= e0.binds().subrange(0, e0.scope_start()));
        }
        match pattern {
            Pattern::Wildcard { .. } => true,
            Pattern::Ident { name, .. } => {
                if self.ctor_arity(name.as_str()) == Some(0usize) {
                    match value {
                        Value::Variant { name: v, fields } => {
                            proof {
                                lemma_vviews(fields@);
                            }
                            string_is(v, name.as_str()) && fields.len() == 0
                        },
                        _ => false,
                    }
                } else {
                    let c = copy_value(value);
                    proof {
                        lemma_same_value_view(c, *value);
                        lemma_define_keeps_outer(env.binds(), env.scope_start(), name@, vview(c), false);
                    }
                    let _ = env.define(name.as_str(), c, false);
                    true
                }
            },
            Pattern::Variant { name, args, .. } => match value {
                Value::Variant { name: v, fields } => {
                    proof {
                        lemma_vviews(fields@);
                    }
                    if !string_is(v, name.as_str()) || fields.len() != args.len() {
                        return false;
                    }
                    self.try_match_all(args, fields, env)
                },
                _ => false,
            },
        }
    }

    fn try_match_all(&self, pats: &Vec<Pattern>, values: &Vec<Value>, env: &mut Env) -> (r: bool)
        requires
            old(env).wf(),
            self.wf(),
            pats@.len() == values@.len(),
        ensures
            final(env).wf(),
            keeps_outer(*old(env), *final(env)),
            (r, final(env).binds()) == tms(self.items@, pats@, vviews(values@), old(env).binds(), old(env).scope_start()),
        decreases pats, 0int,
    {
        let ghost e0 = *env;
        let ghost vs = vviews(values@);
        proof {
            lemma_vviews(values@);
            assert(e0.binds().subrange(0, e0.scope_start()) =~= e0.binds().subrange(0, e0.scope_start()));
            assert(pats@.subrange(0, 0) =~= Seq::<Pattern>::empty());
        }
        let n = pats.len();
        let mut i: usize = 0;
        while i < n
            invariant
                n == pats@.len(),
                n == values@.len(),
                i <= n,
                vs == vviews(values@),
                vs.len() == n,
                forall|j: int| 0 <= j < n ==> #[trigger] vs[j] == vview(values@[j]),
                env.wf(),
                keeps_outer(e0, *env),
                e0 == *old(env),
                self.wf(),
                tms(self.items@, pats@.subrange(0, i as int), vs.subrange(0, i as int), e0.binds(), e0.scope_start()) == (true, env.binds()),
            decreases n - i,
        {
            let ghost q = pats@.subrange(0, i + 1);
            let ghost w = vs.subrange(0, i + 1);
            proof {
                assert(q.subrange(0, q.len() - 1) =~= pats@.subrange(0, i as int));
                assert(w.subrange(0, q.len() - 1) =~= vs.subrange(0, i as int));
                assert(q[q.len() - 1] == pats@[i as int]);
                assert(w[q.len() - 1] == vs[i as int]);
            }
            let ghost e1 = *env;
            let ok = self.try_match(&pats[i], &values[i], env);
            proof {
                assert(e1.scope_start() == e0.scope_start());
                assert(env.binds().subrange(0, e0.scope_start()) =~= e1.binds().subrange(0, e0.scope_start()));
            }
            if !ok {
                proof {
                    lemma_tms_stable(self.items@, pats@, vs, e0.binds(), e0.scope_start(), i + 1);
                    assert(vs.subrange(0, n as int) =~= vs);
                }
                return false;
            }
            i = i + 1;
        }
        assert(pats@.subrange(0, n as int) =~= pats@);
        assert(vs.subrange(0, n as int) =~= vs);
        true
    }
}

fn find_entry(funcs: &Vec<FnEntry>, name: &str) -> (r: Option<usize>)
    ensures
        match r {
            Some(k) => k < funcs@.len() && funcs@[k as int].name@ == name@,
            None => forall|j: int| 0 <= j < funcs@.len() ==> (#[trigger] funcs@[j]).name@ != name@,
        },
{
    let n = funcs.len();
    let mut k: usize = 0;
    while k < n
        invariant
            n == funcs@.len(),
            k <= n,
            forall|j: int| 0 <= j < k ==> (#[trigger] funcs@[j]).name@ != name@,
        decreases n - k,
    {
        if string_is(&funcs[k].name, name) {
            return Some(k);
        }
        k = k + 1;
    }
    None
}

/// Evaluate a single expression with no functions in scope and no
/// bindings.
pub fn eval_expr(expr: &Expr) -> (r: Result<Value, RuntimeError>)
    ensures
        res_view(r) == ev_expr(Seq::empty(), MAX_CALL_DEPTH as nat, *expr, Seq::empty(), Seq::empty()).0,
{
    let mut interp = Interpreter::empty();
    assert(interp.out() =~= Seq::<Seq<char>>::empty());
    let mut env = Env::new();
    assert(env.binds() =~= Seq::<crate::env::Bind>::empty());
    interp.eval_expr_in(expr, &mut env, MAX_CALL_DEPTH)
}

/// The value a block completes with: that of a `return`, else `Unit`.
pub open spec fn block_result(r: Result<CtlV, ErrV>) -> Result<Val, ErrV> {
    match r {
        Ok(CtlV::Normal(v)) => Ok(v),
        Ok(CtlV::Return(v)) => Ok(v),
        Err(x) => Err(x),
    }
}

/// Evaluate a block in a fresh environment with no functions in scope: the
/// value of a `return`, else `Unit`.
pub fn eval_block(block: &Block) -> (r: Result<Value, RuntimeError>)
    ensures
        res_view(r) == block_result(ev_block(Seq::empty(), MAX_CALL_DEPTH as nat, block.stmts@, Seq::empty(), Seq::empty()).0),
{
    let mut interp = Interpreter::empty();
    assert(interp.out() =~= Seq::<Seq<char>>::empty());
    let mut env = Env::new();
    assert(env.binds() =~= Seq::<crate::env::Bind>::empty());
    match interp.run_block(&block.stmts, &mut env, MAX_CALL_DEPTH) {
        Ok(Control::Normal(v)) => Ok(v),
        Ok(Control::Return(v)) => Ok(v),
        Err(e) => Err(e),
    }
}

/// What running `entry` of a lowered module gives: a refusal when two
/// functions share a name, else the call's result.
pub open spec fn run_result(lowered: Module, entry: Seq<char>, args: Seq<Val>, r: Result<Value, RuntimeError>) -> bool {
    if !unique_functions(lowered.items@) {
        r is Err && r->Err_0.code@ == "E1000"@ && r->Err_0.blame is None
    } else {
        res_view(r) == ev_call(lowered.items@, MAX_CALL_DEPTH as nat, 0, entry, args, Span { start: 0, end: 0 }, Seq::empty()).0
    }
}

/// Lower `module`'s contracts, build an interpreter for it and call `entry`
/// with `args`.
pub fn run(module: &Module, entry: &str, args: Vec<Value>) -> (r: Result<Value, RuntimeError>)
    ensures
        exists|lowered: Module| #[trigger] lowered_module(lowered, *module) && run_result(lowered, entry@, vviews(args@), r),
{
    let lowered = lower(module);
    let mut interp = match Interpreter::new(&lowered) {
        Ok(i) => i,
        Err(e) => return Err(e),
    };
    proof {
        assert(interp.out() =~= Seq::<Seq<char>>::empty());
    }
    let r = interp.call(entry, args);
    assert(run_result(lowered, entry@, vviews(args@), r));
    r
}

/// The arguments the runtime hands `main`: for each capability parameter the
/// capability it names (the root capability when it names none), `Unit` for
/// anything else.
/// What `main` is handed for a parameter: the capability a `Cap` parameter
/// names (`Root` when it names none), unit otherwise.
pub open spec fn main_arg_val(p: Param) -> Val {
    if p.ty.name@ == "Cap"@ {
        Val::Cap(if p.ty.args@.len() > 0 { p.ty.args@[0].name@ } else { "Root"@ })
    } else {
        Val::Unit
    }
}

/// The arguments `main` is handed.
pub open spec fn main_arg_vals(f: Function) -> Seq<Val> {
    f.signature.params@.map_values(|p: Param| main_arg_val(p))
}

/// Calling `main` (the function `f` of `items`) with its arguments, from
/// nothing printed: the result and the printed lines.
pub open spec fn main_outcome(items: Seq<Item>, f: Function) -> (Result<Val, ErrV>, Out) {
    ev_call(items, MAX_CALL_DEPTH as nat, 0, "main"@, main_arg_vals(f), Span { start: 0, end: 0 }, Seq::empty())
}

pub fn main_arguments(f: &Function) -> (r: Vec<Value>)
    ensures
        vviews(r@) == main_arg_vals(*f),
        r@.len() == f.signature.params@.len(),
        forall|i: int|
            0 <= i < r@.len() ==> match #[trigger] r@[i] {
                Value::Capability { authority } => f.signature.params@[i].ty.name@ == "Cap"@ && authority@ == (
                    if f.signature.params@[i].ty.args@.len() > 0 {
                        f.signature.params@[i].ty.args@[0].name@
                    } else {
                        "Root"@
                    }),
                Value::Unit => f.signature.params@[i].ty.name@ != "Cap"@,
                _ => false,
            },
{
    let ps = &f.signature.params;
    let mut out: Vec<Value> = Vec::new();
    let n = ps.len();
    let mut i: usize = 0;
    while i < n
        invariant
            n == ps@.len(),
            i <= n,
            out@.len() == i,
            forall|j: int|
                0 <= j < i ==> match #[trigger] out@[j] {
                    Value::Capability { authority } => ps@[j].ty.name@ == "Cap"@ && authority@ == (
                        if ps@[j].ty.args@.len() > 0 {
                            ps@[j].ty.args@[0].name@
                        } else {
                            "Root"@
                        }),
                    Value::Unit => ps@[j].ty.name@ != "Cap"@,
                    _ => false,
                },
        decreases n - i,
    {
        let p = &ps[i];
        if string_is(&p.ty.name, "Cap") {
            let authority = if p.ty.args.len() > 0 {
                copy_string(&p.ty.args[0].name)
            } else {
                owned("Root")
            };
            out.push(Value::Capability { authority });
        } else {
            out.push(Value::Unit);
        }
        i = i + 1;
    }
    proof {
        lemma_vviews(out@);
        assert forall|j: int| 0 <= j < out@.len() implies #[trigger] vviews(out@)[j] == main_arg_vals(*f)[j] by {
            match out@[j] {
                Value::Capability { authority } => {},
                Value::Unit => {},
                _ => {},
            }
        }
        assert(vviews(out@) =~= main_arg_vals(*f));
    }
    out
}

/// What running `main` of a lowered module gives: a refusal of two
/// functions of one name, a refusal when there is no `main`, else the
/// outcome of calling it.
pub open spec fn main_run(items: Seq<Item>, r: Result<Value, RuntimeError>) -> bool {
    if !unique_functions(items) {
        r is Err && r->Err_0.code@ == "E1000"@
    } else {
        match crate::semantics::fn_pos(items, "main"@) {
            None => r is Err && r->Err_0.message@ == "no `main` function"@,
            Some(k) => items[k] matches Item::Function(f) && res_view(r) == main_outcome(items, f).0,
        }
    }
}

/// Run a module's `main`, handing it the capability each capability
/// parameter names — the sole source of authority.
pub fn run_main(module: &Module) -> (r: Result<Value, RuntimeError>)
    ensures
        exists|lowered: Module| #[trigger] lowered_module(lowered, *module) && main_run(lowered.items@, r),
{
    let lowered = lower(module);
    let mut interp = match Interpreter::new(&lowered) {
        Ok(i) => i,
        Err(e) => return Err(e),
    };
    let k = match interp.func_index("main") {
        Some(k) => k,
        None => return Err(RuntimeError::new(Span { start: 0, end: 0 }, "no `main` function")),
    };
    proof {
        crate::semantics::lemma_first_entry_in(fn_entries(lowered.items@), "main"@);
        lemma_fn_entries(lowered.items@);
    }
    let args = match &interp.items[k] {
        Item::Function(f) => main_arguments(f),
        Item::Type(_) => return Err(RuntimeError::new(Span { start: 0, end: 0 }, "no `main` function")),
    };
    proof {
        assert(names_view(interp.printed()) =~= Seq::<Seq<char>>::empty());
    }
    interp.call("main", args)
}

} // verus!
