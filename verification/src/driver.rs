//! The driver's logic: which check passes run over what, and how a program
//! is run and verified. Loading files and compiling C stay outside; they
//! hand this module the modules they read.

use vstd::prelude::*;
use std::collections::BTreeMap;
use crate::ast::{Item, Module};
use crate::codegen::main_item;
use crate::interp::{duplicate_message, first_duplicate, main_arguments, main_outcome, unique_functions, Interpreter};
use crate::lower::{lower, lowered_module};
use crate::span::Span;
use crate::value::{err_view, ErrV, RuntimeError, Val};
use crate::verify::{answered_by, reported, verify_reporting_availability, Solver};
use crate::authority::{check_authority, items_authority_diags};
use crate::capabilities::{check_capabilities, items_cap_diags};
use crate::diagnostic::{errors_as, Diagnostic};
use crate::effects::{check_effects, items_effect_diags};
use crate::link::{link, links_to};
use crate::resolve::{check_resolution, keys_ascend, lists_map, program_diags};
use crate::taint::{check_taint, items_taint_diags};
use crate::text::{contains_str, names_view, str_eq};
use crate::types::{check_types, dup_diags, main_diags, type_errors};
use crate::typing::{functions_t, tcx_of};

verus! {

/// A loaded program: its modules by name, and the root module's name.
pub struct Program {
    pub modules: BTreeMap<String, Module>,
    pub root: String,
}

/// The independent check passes, in run order.
pub const PASSES: [&'static str; 6] = ["resolution", "types", "effects", "authority", "capabilities", "taint"];

/// Whether a selection runs pass `name`: an empty selection runs them all.
pub open spec fn pass_enabled(passes: Seq<Seq<char>>, name: Seq<char>) -> bool {
    passes.len() == 0 || passes.contains(name)
}

fn enabled(passes: &[String], name: &str) -> (r: bool)
    ensures
        r == pass_enabled(names_view(passes@), name@),
{
    let n = passes.len();
    if n == 0 {
        return true;
    }
    let mut i: usize = 0;
    while i < n
        invariant
            n == passes@.len(),
            i <= n,
            forall|j: int| 0 <= j < i ==> passes@[j]@ != name@,
        decreases n - i,
    {
        if str_eq(passes[i].as_str(), name) {
            assert(names_view(passes@)[i as int] == name@);
            return true;
        }
        i = i + 1;
    }
    assert(!names_view(passes@).contains(name@));
    false
}

/// The report of the resolution pass over a set of modules: that of their
/// ascending listing.
pub open spec fn resolution_report(r: Seq<Diagnostic>, modules: Map<String, Module>) -> bool {
    exists|p: Seq<(Seq<char>, Module)>| lists_map(modules, p) && keys_ascend(p) && errors_as(r, #[trigger] program_diags(p, p))
}

/// The report of the type pass over a module: its duplicate-name and
/// `main`-signature errors, then what checking each function reports.
pub open spec fn types_report(r: Seq<Diagnostic>, m: Module) -> bool {
    &&& type_errors(r)
    &&& errors_as(r, dup_diags(m.items@, m.items@) + main_diags(m.items@) + functions_t(tcx_of(m.items@), m.items@))
}

/// Six reports one after another.
pub open spec fn six(
    a: Seq<Diagnostic>,
    b: Seq<Diagnostic>,
    c: Seq<Diagnostic>,
    d: Seq<Diagnostic>,
    e: Seq<Diagnostic>,
    f: Seq<Diagnostic>,
) -> Seq<Diagnostic> {
    a + b + c + d + e + f
}

/// A pass's part of the report: its own report when it is selected,
/// nothing otherwise.
pub open spec fn part(selected: bool, report: bool, r: Seq<Diagnostic>) -> bool {
    if selected {
        report
    } else {
        r.len() == 0
    }
}

/// `r` is, in pass order, the report of each selected pass: resolution over
/// the modules, every other pass over the linked module.
pub open spec fn passes_report(r: Seq<Diagnostic>, modules: Map<String, Module>, linked: Module, ps: Seq<Seq<char>>) -> bool {
    exists|a: Seq<Diagnostic>, b: Seq<Diagnostic>, c: Seq<Diagnostic>, d: Seq<Diagnostic>, e: Seq<Diagnostic>, f: Seq<Diagnostic>|
        r == #[trigger] six(a, b, c, d, e, f)
        && part(pass_enabled(ps, "resolution"@), resolution_report(a, modules), a)
        && part(pass_enabled(ps, "types"@), types_report(b, linked), b)
        && part(pass_enabled(ps, "effects"@), errors_as(c, items_effect_diags(linked.items@, linked.items@)), c)
        && part(pass_enabled(ps, "authority"@), errors_as(d, items_authority_diags(linked.items@, linked.items@)), d)
        && part(pass_enabled(ps, "capabilities"@), errors_as(e, items_cap_diags(linked.items@, linked.items@)), e)
        && part(pass_enabled(ps, "taint"@), errors_as(f, items_taint_diags(linked.items@, linked.items@)), f)
}

/// The imports of a freshly loaded module that still have to be loaded: the
/// names of its imports not among `loaded`, in order.
pub open spec fn pending_imports(loaded: Seq<Seq<char>>, imports: Seq<crate::ast::Import>) -> Seq<Seq<char>>
    decreases imports.len(),
{
    if imports.len() == 0 {
        Seq::empty()
    } else {
        pending_imports(loaded, imports.drop_last()) + if loaded.contains(imports.last().name@) {
            Seq::empty()
        } else {
            seq![imports.last().name@]
        }
    }
}

/// Which modules loading `module` adds to the work list, given the names of
/// the modules already loaded: each import not yet loaded, in order.
pub fn imports_to_load(loaded: &Vec<String>, module: &Module) -> (r: Vec<String>)
    ensures
        names_view(r@) == pending_imports(names_view(loaded@), module.imports@),
{
    let imports = &module.imports;
    let mut out: Vec<String> = Vec::new();
    let n = imports.len();
    let mut i: usize = 0;
    assert(names_view(out@) =~= pending_imports(names_view(loaded@), imports@.subrange(0, 0)));
    while i < n
        invariant
            n == imports@.len(),
            i <= n,
            names_view(out@) == pending_imports(names_view(loaded@), imports@.subrange(0, i as int)),
        decreases n - i,
    {
        let ghost before = names_view(out@);
        assert(imports@.subrange(0, i + 1).drop_last() =~= imports@.subrange(0, i as int));
        assert(imports@.subrange(0, i + 1).last() == imports@[i as int]);
        if !contains_str(loaded, imports[i].name.as_str()) {
            out.push(crate::text::copy_string(&imports[i].name));
            assert(names_view(out@) =~= before + seq![imports@[i as int].name@]);
        } else {
            assert(names_view(out@) =~= before + Seq::<Seq<char>>::empty());
        }
        i = i + 1;
    }
    assert(imports@.subrange(0, n as int) =~= imports@);
    out
}

/// The file a module of a program is read from, beside the root file:
/// its name with the `.writ` extension.
pub fn module_file_name(name: &str) -> (r: String)
    ensures
        r@ == name@ + ".writ"@,
{
    let mut r = crate::text::owned(name);
    crate::text::push_str(&mut r, ".writ");
    r
}

/// `linked` is the program's modules linked into one, from its root.
pub open spec fn linked_program_of(linked: Module, program: Program) -> bool {
    exists|p: Seq<(Seq<char>, Module)>| #[trigger] lists_map(program.modules@, p) && keys_ascend(p) && links_to(linked, p, program.root@)
}

/// Run only the selected passes (an empty selection runs them all); each
/// pass is independent of the others. Resolution runs over the module graph,
/// the other passes over the linked program, the artifact the back ends
/// execute. Diagnostics come in pass order.
pub fn check_passes(program: &Program, passes: &[String]) -> (r: Vec<Diagnostic>)
    ensures
        exists|linked: Module|
            linked_program_of(linked, *program) && #[trigger] passes_report(r@, program.modules@, linked, names_view(passes@)),
{
    let ghost ps = names_view(passes@);
    let mut a: Vec<Diagnostic> = Vec::new();
    if enabled(passes, "resolution") {
        a = check_resolution(&program.modules);
    }
    let linked = link(&program.modules, program.root.as_str());
    let mut b: Vec<Diagnostic> = Vec::new();
    if enabled(passes, "types") {
        b = check_types(&linked);
    }
    let mut c: Vec<Diagnostic> = Vec::new();
    if enabled(passes, "effects") {
        c = check_effects(&linked);
    }
    let mut d: Vec<Diagnostic> = Vec::new();
    if enabled(passes, "authority") {
        d = check_authority(&linked);
    }
    let mut e: Vec<Diagnostic> = Vec::new();
    if enabled(passes, "capabilities") {
        e = check_capabilities(&linked);
    }
    let mut f: Vec<Diagnostic> = Vec::new();
    if enabled(passes, "taint") {
        f = check_taint(&linked);
    }
    let ghost (va, vb, vc, vd, ve, vf) = (a@, b@, c@, d@, e@, f@);
    let mut out: Vec<Diagnostic> = Vec::new();
    out.append(&mut a);
    out.append(&mut b);
    out.append(&mut c);
    out.append(&mut d);
    out.append(&mut e);
    out.append(&mut f);
    proof {
        assert(out@ =~= six(va, vb, vc, vd, ve, vf));
        assert(part(pass_enabled(ps, "resolution"@), resolution_report(va, program.modules@), va));
        assert(part(pass_enabled(ps, "types"@), types_report(vb, linked), vb));
        assert(part(pass_enabled(ps, "effects"@), errors_as(vc, items_effect_diags(linked.items@, linked.items@)), vc));
        assert(part(pass_enabled(ps, "authority"@), errors_as(vd, items_authority_diags(linked.items@, linked.items@)), vd));
        assert(part(pass_enabled(ps, "capabilities"@), errors_as(ve, items_cap_diags(linked.items@, linked.items@)), ve));
        assert(part(pass_enabled(ps, "taint"@), errors_as(vf, items_taint_diags(linked.items@, linked.items@)), vf));
        assert(linked_program_of(linked, *program));
        assert(passes_report(out@, program.modules@, linked, ps));
    }
    out
}

/// Run every static check over a program.
pub fn check(program: &Program) -> (r: Vec<Diagnostic>)
    ensures
        exists|linked: Module|
            linked_program_of(linked, *program) && #[trigger] passes_report(r@, program.modules@, linked, Seq::empty()),
{
    let none: Vec<String> = Vec::new();
    let r = check_passes(program, none.as_slice());
    assert(names_view(none@) =~= Seq::<Seq<char>>::empty());
    r
}

/// `lowered` is the program linked and then lowered: what the back ends run.
pub open spec fn executed_program_of(lowered: Module, program: Program) -> bool {
    exists|linked: Module| #[trigger] linked_program_of(linked, program) && lowered_module(lowered, linked)
}

/// What running a lowered program must report before `main` runs: two
/// functions of one name (`E1000` at the second one's signature), or no
/// `main`.
pub open spec fn refused_before_main(lowered: Module, out: Seq<String>, err: Option<RuntimeError>) -> bool {
    &&& !unique_functions(lowered.items@) ==> out.len() == 0 && (err matches Some(e) && e.code@ == "E1000"@ && (first_duplicate(
        lowered.items@,
    ) matches Some((n, sp)) && err_view(e) == ("E1000"@, duplicate_message(n), sp, None::<crate::diagnostic::Blame>)))
    &&& (unique_functions(lowered.items@) && main_item(lowered.items@) is None) ==> out.len() == 0 && (err matches Some(
        e,
    ) && e.message@ == "no `main` function"@ && e.code@ == "E1000"@)
}

/// What running a lowered program with a `main` (and no two functions of
/// one name) must report: the lines `main` printed, and its error if it
/// failed.
pub open spec fn reports_main(lowered: Module, out: Seq<String>, err: Option<RuntimeError>) -> bool {
    (unique_functions(lowered.items@) && main_item(lowered.items@) is Some) ==> {
        let k = main_item(lowered.items@)->Some_0;
        &&& lowered.items@[k] is Function
        &&& names_view(out) == main_outcome(lowered.items@, lowered.items@[k]->Function_0).1
        &&& match err {
            None => main_outcome(lowered.items@, lowered.items@[k]->Function_0).0 is Ok,
            Some(e) => main_outcome(lowered.items@, lowered.items@[k]->Function_0).0 == Err::<Val, ErrV>(err_view(e)),
        }
    }
}

/// `main` of a lowered program with a `main` (and no two functions of one
/// name) fails with `err`.
pub open spec fn reports_main_error(lowered: Module, err: RuntimeError) -> bool {
    (unique_functions(lowered.items@) && main_item(lowered.items@) is Some) ==> {
        let k = main_item(lowered.items@)->Some_0;
        &&& lowered.items@[k] is Function
        &&& main_outcome(lowered.items@, lowered.items@[k]->Function_0).0 == Err::<Val, ErrV>(err_view(err))
    }
}

/// Running `program` may print `out` and stop with `err` (none when `main`
/// completes): what `run_collecting` returns.
pub open spec fn collects(program: Program, out: Seq<String>, err: Option<RuntimeError>) -> bool {
    exists|lowered: Module|
        #[trigger] executed_program_of(lowered, program) && refused_before_main(lowered, out, err) && reports_main(lowered, out, err)
}

/// Run `main`, returning both the lines it printed and any runtime error. A
/// `print` that ran before an error is kept. `main` is handed, for each
/// capability parameter, the capability it names.
pub fn run_collecting(program: &Program) -> (r: (Vec<String>, Option<RuntimeError>))
    ensures
        exists|lowered: Module|
            #[trigger] executed_program_of(lowered, *program) && refused_before_main(lowered, r.0@, r.1) && reports_main(
                lowered,
                r.0@,
                r.1,
            ),
        collects(*program, r.0@, r.1),
{
    let linked = link(&program.modules, program.root.as_str());
    let lowered = lower(&linked);
    assert(linked_program_of(linked, *program));
    assert(executed_program_of(lowered, *program));
    let mut interp = match Interpreter::new(&lowered) {
        Ok(i) => i,
        Err(e) => return (Vec::new(), Some(e)),
    };
    let items = &lowered.items;
    let n = items.len();
    let mut i: usize = 0;
    assert(items@.subrange(0, 0) =~= Seq::<Item>::empty());
    while i < n
        invariant
            n == items@.len(),
            i <= n,
            crate::codegen::main_item(items@.subrange(0, i as int)) is None,
            executed_program_of(lowered, *program),
            unique_functions(lowered.items@),
            items == &lowered.items,
            interp.wf(),
            interp.module_items() == lowered.items@,
            interp.printed().len() == 0,
        decreases n - i,
    {
        assert(items@.subrange(0, i + 1).drop_last() =~= items@.subrange(0, i as int));
        match &items[i] {
            Item::Function(f) => {
                if crate::text::string_is(&f.signature.name, "main") {
                    let args = main_arguments(f);
                    proof {
                        assert(names_view(interp.printed()) =~= Seq::<Seq<char>>::empty());
                    }
                    let err = match interp.call("main", args) {
                        Ok(_) => None,
                        Err(e) => Some(e),
                    };
                    proof {
                        crate::codegen::lemma_main_item_some(items@, i as int + 1);
                    }
                    return (interp.output(), err);
                }
            },
            Item::Type(_) => {},
        }
        i = i + 1;
    }
    assert(items@.subrange(0, n as int) =~= items@);
    (Vec::new(), Some(RuntimeError::new(Span { start: 0, end: 0 }, "no `main` function")))
}

/// Run a checked program's `main`, returning the lines it printed, or the
/// runtime error that stopped it (the lines printed before it are dropped;
/// `run_collecting` keeps them).
pub fn run(program: &Program) -> (r: Result<Vec<String>, RuntimeError>)
    ensures
        exists|lowered: Module|
            #[trigger] executed_program_of(lowered, *program) && refused_before_main(
                lowered,
                match r {
                    Ok(out) => out@,
                    Err(_) => Seq::empty(),
                },
                match r {
                    Ok(_) => None,
                    Err(e) => Some(e),
                },
            ) && (r is Ok ==> reports_main(lowered, r->Ok_0@, None)) && (r is Err ==> reports_main_error(lowered, r->Err_0)),
        r matches Ok(out) ==> collects(*program, out@, None),
        r matches Err(e) ==> exists|out: Seq<String>| #[trigger] collects(*program, out, Some(e)),
{
    match run_collecting(program) {
        (output, None) => Ok(output),
        (out, Some(err)) => {
            assert(collects(*program, out@, Some(err)));
            Err(err)
        },
    }
}

/// Statically verify a program's contracts with `solver`, over the linked
/// module. Returns the warnings and whether the solver was available; when
/// it was not, nothing is reported.
pub fn verify<S: Solver>(program: &Program, solver: &S) -> (r: (Vec<Diagnostic>, bool))
    ensures
        exists|linked: Module|
            #[trigger] linked_program_of(linked, *program) && (!r.1 ==> r.0@.len() == 0) && (r.1 ==> reported(
                r.0@,
                linked.items@,
            )) && (r.1 ==> answered_by(r.0@, linked.items@, *solver)),
{
    let linked = link(&program.modules, program.root.as_str());
    assert(linked_program_of(linked, *program));
    verify_reporting_availability(&linked, solver)
}

/// The passes are independent: selecting one pass alone reports exactly
/// what that pass reports by itself, and nothing of the others.
pub proof fn law_pass_runs_alone(r: Seq<Diagnostic>, modules: Map<String, Module>, linked: Module, name: Seq<char>)
    requires
        passes_report(r, modules, linked, seq![name]),
    ensures
        name == "resolution"@ ==> resolution_report(r, modules),
        name == "types"@ ==> types_report(r, linked),
        name == "effects"@ ==> errors_as(r, items_effect_diags(linked.items@, linked.items@)),
        name == "authority"@ ==> errors_as(r, items_authority_diags(linked.items@, linked.items@)),
        name == "capabilities"@ ==> errors_as(r, items_cap_diags(linked.items@, linked.items@)),
        name == "taint"@ ==> errors_as(r, items_taint_diags(linked.items@, linked.items@)),
{
    reveal_strlit("resolution");
    reveal_strlit("types");
    reveal_strlit("effects");
    reveal_strlit("authority");
    reveal_strlit("capabilities");
    reveal_strlit("taint");
    let ps = seq![name];
    let (a, b, c, d, e, f) = choose|a: Seq<Diagnostic>, b: Seq<Diagnostic>, c: Seq<Diagnostic>, d: Seq<Diagnostic>, e: Seq<Diagnostic>, f: Seq<Diagnostic>|
        r == #[trigger] six(a, b, c, d, e, f)
        && part(pass_enabled(ps, "resolution"@), resolution_report(a, modules), a)
        && part(pass_enabled(ps, "types"@), types_report(b, linked), b)
        && part(pass_enabled(ps, "effects"@), errors_as(c, items_effect_diags(linked.items@, linked.items@)), c)
        && part(pass_enabled(ps, "authority"@), errors_as(d, items_authority_diags(linked.items@, linked.items@)), d)
        && part(pass_enabled(ps, "capabilities"@), errors_as(e, items_cap_diags(linked.items@, linked.items@)), e)
        && part(pass_enabled(ps, "taint"@), errors_as(f, items_taint_diags(linked.items@, linked.items@)), f);
    assert forall|x: Seq<char>| #[trigger] pass_enabled(ps, x) <==> x == name by {
        if ps.contains(x) {
            let j = choose|j: int| 0 <= j < ps.len() && ps[j] == x;
            assert(j == 0);
        }
        if x == name {
            assert(ps[0] == x);
        }
    }
    assert("resolution"@.len() == 10 && "types"@.len() == 5 && "effects"@.len() == 7);
    assert("authority"@.len() == 9 && "capabilities"@.len() == 12 && "taint"@.len() == 5);
    assert("types"@[0] == 't' && "taint"@[0] == 't' && "types"@[1] == 'y' && "taint"@[1] == 'a');
    if name == "resolution"@ {
        assert(r =~= a);
    } else if name == "types"@ {
        assert(r =~= b);
    } else if name == "effects"@ {
        assert(r =~= c);
    } else if name == "authority"@ {
        assert(r =~= d);
    } else if name == "capabilities"@ {
        assert(r =~= e);
    } else if name == "taint"@ {
        assert(r =~= f);
    }
}

} // verus!
