//! Optional SMT-backed static verification of contracts.
//!
//! Runtime checking enforces `ensures` per input; this pass tries to prove
//! each clause for all inputs by handing the queries of `smt` to a solver.
//! Clauses it cannot prove are reported before execution.
//!
//! The pass is optional and never blocks: it emits warnings only, so it never
//! refuses a program the runtime path would accept. The solver sits behind the
//! `Solver` trait; when it reports itself unavailable, verification is skipped.
//! Integers are modelled as unbounded, so a proof assumes no overflow
//! (overflow traps at run time; it never yields a wrong answer).

use vstd::prelude::*;
use crate::ast::{Function, Item, Module};
use crate::diagnostic::{lemma_warnings_append, lemma_warnings_push, warnings_as, Diagnostic, Severity};
use crate::smt::{function_queries, queries_and_skipped, queries_of, queries_view, skipped_of};
use crate::span::Span;
use crate::text::{push_char, push_str, str_eq};

verus! {

/// A solver's verdict on one query.
#[derive(Debug, Clone, Copy, PartialEq, Eq, Structural)]
pub enum Answer {
    /// The negated goal is unsatisfiable: the contract is proved.
    Unsat,
    /// A model exists: the solver found inputs that violate the contract.
    Sat,
    /// The solver neither proved nor refuted it.
    Unknown,
}

/// An SMT solver, kept small so the engine can be swapped. What it answers is
/// up to the engine: `gives` is the engine's own account of which answers it
/// may give to which script, and the pass states its report in terms of it.
pub trait Solver {
    /// The solver may answer `a` to `script`. An engine that says nothing
    /// of its answers keeps this default, under which it may give any.
    open spec fn gives(&self, script: Seq<char>, a: Answer) -> bool {
        true
    }

    /// Whether the solver can be used right now; when not, verification is
    /// skipped.
    fn available(&self) -> bool;

    /// Decide one SMT-LIB2 script.
    fn solve(&self, script: &str) -> (r: Answer)
        ensures
            self.gives(script@, r);
}

/// The characters Unicode counts as white space.
pub open spec fn is_space(c: char) -> bool {
    ||| ('\u{9}' <= c && c <= '\u{d}')
    ||| c == ' '
    ||| c == '\u{85}'
    ||| c == '\u{a0}'
    ||| c == '\u{1680}'
    ||| ('\u{2000}' <= c && c <= '\u{200a}')
    ||| c == '\u{2028}'
    ||| c == '\u{2029}'
    ||| c == '\u{202f}'
    ||| c == '\u{205f}'
    ||| c == '\u{3000}'
}

fn space(c: char) -> (r: bool)
    ensures
        r == is_space(c),
{
    ('\u{9}' <= c && c <= '\u{d}') || c == ' ' || c == '\u{85}' || c == '\u{a0}' || c == '\u{1680}' || ('\u{2000}' <= c
        && c <= '\u{200a}') || c == '\u{2028}' || c == '\u{2029}' || c == '\u{202f}' || c == '\u{205f}' || c == '\u{3000}'
}

/// `s` without its leading white space.
pub open spec fn skip_space(s: Seq<char>) -> Seq<char>
    decreases s.len(),
{
    if s.len() > 0 && is_space(s[0]) {
        skip_space(s.subrange(1, s.len() as int))
    } else {
        s
    }
}

/// The leading run of non-space characters of `s`.
pub open spec fn leading_word(s: Seq<char>) -> Seq<char>
    decreases s.len(),
{
    if s.len() > 0 && !is_space(s[0]) {
        seq![s[0]] + leading_word(s.subrange(1, s.len() as int))
    } else {
        Seq::empty()
    }
}

/// The verdict a solver's reply states: its first word.
pub open spec fn answer_of(s: Seq<char>) -> Answer {
    let w = leading_word(skip_space(s));
    if w == "unsat"@ {
        Answer::Unsat
    } else if w == "sat"@ {
        Answer::Sat
    } else {
        Answer::Unknown
    }
}

/// Parse a solver's `(check-sat)` reply: `unsat`, `sat`, or anything else.
pub fn parse_answer(stdout: &str) -> (r: Answer)
    ensures
        r == answer_of(stdout@),
{
    let ghost s = stdout@;
    let n = stdout.unicode_len();
    let mut i: usize = 0;
    assert(s.subrange(0, n as int) =~= s);
    while i < n && space(stdout.get_char(i))
        invariant
            n == s.len(),
            i <= n,
            s == stdout@,
            skip_space(s) == skip_space(s.subrange(i as int, n as int)),
        decreases n - i,
    {
        assert(s.subrange(i as int, n as int).subrange(1, (n - i) as int) =~= s.subrange(i + 1, n as int));
        i = i + 1;
    }
    assert(skip_space(s.subrange(i as int, n as int)) == s.subrange(i as int, n as int));
    let mut word = String::new();
    let mut j: usize = i;
    assert(word@ + leading_word(s.subrange(j as int, n as int)) =~= leading_word(s.subrange(i as int, n as int)));
    while j < n && !space(stdout.get_char(j))
        invariant
            n == s.len(),
            i <= j <= n,
            s == stdout@,
            word@ + leading_word(s.subrange(j as int, n as int)) == leading_word(s.subrange(i as int, n as int)),
        decreases n - j,
    {
        let c = stdout.get_char(j);
        assert(s.subrange(j as int, n as int).subrange(1, (n - j) as int) =~= s.subrange(j + 1, n as int));
        push_char(&mut word, c);
        assert(word@ + leading_word(s.subrange(j + 1, n as int)) =~= leading_word(s.subrange(i as int, n as int)));
        j = j + 1;
    }
    assert(word@ =~= leading_word(s.subrange(i as int, n as int)));
    if str_eq(word.as_str(), "unsat") {
        Answer::Unsat
    } else if str_eq(word.as_str(), "sat") {
        Answer::Sat
    } else {
        Answer::Unknown
    }
}

/// What is reported of a function outside the fragment.
pub open spec fn unverified_message(name: Seq<char>) -> Seq<char> {
    "function `"@ + name + "` was not statically verified: its contract is outside the supported SMT fragment"@
}

/// What is reported of an `ensures` clause outside the fragment of a function
/// whose other clauses were queried.
pub open spec fn skipped_message(name: Seq<char>) -> Seq<char> {
    "an `ensures` clause of function `"@ + name + "` was not statically verified: it is outside the supported SMT fragment"@
}

/// One `V0001` per skipped clause, at the clause's span.
pub open spec fn skipped_report(name: Seq<char>, spans: Seq<Span>) -> Seq<(Seq<char>, Span, Seq<char>)> {
    spans.map_values(|sp: Span| ("V0001"@, sp, skipped_message(name)))
}

/// What one answer reports of its query: nothing when proved, `V0002` when
/// refuted, `V0003` when undecided, at the clause's span.
pub open spec fn answer_report(q: (Span, Seq<char>), a: Answer) -> Seq<(Seq<char>, Span, Seq<char>)> {
    match a {
        Answer::Unsat => Seq::empty(),
        Answer::Sat => seq![("V0002"@, q.0, "postcondition not proved: the solver found inputs that violate it"@)],
        Answer::Unknown => seq![("V0003"@, q.0, "postcondition could not be proved by the solver"@)],
    }
}

/// The reports of queries and their answers, pairwise.
pub open spec fn answers_report(qs: Seq<(Span, Seq<char>)>, ans: Seq<Answer>) -> Seq<(Seq<char>, Span, Seq<char>)>
    decreases qs.len(),
{
    if qs.len() == 0 {
        Seq::empty()
    } else {
        answers_report(qs.drop_last(), ans.subrange(0, qs.len() - 1)) + answer_report(qs.last(), ans[qs.len() - 1])
    }
}

/// What is reported of one function, given the answers to its queries: nothing
/// without `ensures`; `V0001` at its signature when it lies outside the
/// fragment; else the report of each answer, then a `V0001` for each clause
/// outside the fragment. So every clause not proved is reported.
pub open spec fn fn_report(f: Function, ans: Seq<Answer>) -> Seq<(Seq<char>, Span, Seq<char>)> {
    if f.signature.ensures@.len() == 0 {
        Seq::empty()
    } else if queries_of(f).len() == 0 {
        seq![("V0001"@, f.signature.span, unverified_message(f.signature.name@))]
    } else {
        answers_report(queries_of(f), ans) + skipped_report(f.signature.name@, skipped_of(f))
    }
}

/// How many queries a list of items makes, in order.
pub open spec fn query_count(items: Seq<Item>) -> nat
    decreases items.len(),
{
    if items.len() == 0 {
        0
    } else {
        query_count(items.drop_last()) + match items.last() {
            Item::Function(f) => queries_of(f).len(),
            Item::Type(_) => 0,
        }
    }
}

/// The report of a list of items, given the answers to their queries in
/// order.
pub open spec fn report_of(items: Seq<Item>, ans: Seq<Answer>) -> Seq<(Seq<char>, Span, Seq<char>)>
    decreases items.len(),
{
    if items.len() == 0 {
        Seq::empty()
    } else {
        let k = query_count(items.drop_last());
        report_of(items.drop_last(), ans.subrange(0, k as int)) + match items.last() {
            Item::Function(f) => fn_report(f, ans.subrange(k as int, ans.len() as int)),
            Item::Type(_) => Seq::empty(),
        }
    }
}

proof fn lemma_query_count_prefix(items: Seq<Item>, i: int)
    requires
        0 <= i <= items.len(),
    ensures
        query_count(items.subrange(0, i)) <= query_count(items),
    decreases items.len() - i,
{
    if i < items.len() {
        assert(items.subrange(0, i + 1).drop_last() =~= items.subrange(0, i));
        lemma_query_count_prefix(items, i + 1);
    } else {
        assert(items.subrange(0, i) =~= items);
    }
}

fn report_function(f: &Function, answers: &Vec<Answer>, pos: usize) -> (d: Vec<Diagnostic>)
    requires
        pos + queries_of(*f).len() <= answers@.len(),
    ensures
        warnings_as(d@, fn_report(*f, answers@.subrange(pos as int, pos + queries_of(*f).len()))),
{
    let ghost a = answers@.subrange(pos as int, pos + queries_of(*f).len());
    let mut d: Vec<Diagnostic> = Vec::new();
    if f.signature.ensures.len() == 0 {
        return d;
    }
    let (qs, skipped) = queries_and_skipped(&f);
    let ghost qv = queries_view(qs@);
    if qs.len() == 0 {
        let mut m = String::new();
        push_str(&mut m, "function `");
        push_str(&mut m, f.signature.name.as_str());
        push_str(&mut m, "` was not statically verified: its contract is outside the supported SMT fragment");
        assert(m@ =~= unverified_message(f.signature.name@));
        let w = Diagnostic::warning("V0001", f.signature.span, m.as_str());
        d.push(w);
        assert(d@ =~= seq![w]);
        return d;
    }
    let n = qs.len();
    let total = answers.len();
    let mut k: usize = 0;
    assert(qv.subrange(0, 0) =~= Seq::<(Span, Seq<char>)>::empty());
    while k < n
        invariant
            total == answers@.len(),
            n == qs@.len(),
            qv == queries_view(qs@),
            qv == queries_of(*f),
            k <= n,
            pos + n <= answers@.len(),
            a == answers@.subrange(pos as int, pos + n),
            warnings_as(d@, answers_report(qv.subrange(0, k as int), a.subrange(0, k as int))),
        decreases n - k,
    {
        let ghost before = d@;
        let ghost r0 = answers_report(qv.subrange(0, k as int), a.subrange(0, k as int));
        proof {
            let q = qv.subrange(0, k + 1);
            assert(q.drop_last() =~= qv.subrange(0, k as int));
            assert(a.subrange(0, k + 1).subrange(0, k as int) =~= a.subrange(0, k as int));
            assert(a.subrange(0, k + 1)[k as int] == answers@[pos + k]);
            assert(q.last() == qs@[k as int]@);
        }
        match answers[pos + k] {
            Answer::Unsat => {
                assert(answers_report(qv.subrange(0, k + 1), a.subrange(0, k + 1)) =~= r0);
            },
            Answer::Sat => {
                let w = Diagnostic::warning("V0002", qs[k].clause_span, "postcondition not proved: the solver found inputs that violate it");
                d.push(w);
                proof {
                    lemma_warnings_push(before, r0, w);
                    assert(answers_report(qv.subrange(0, k + 1), a.subrange(0, k + 1)) =~= r0.push(w@));
                }
            },
            Answer::Unknown => {
                let w = Diagnostic::warning("V0003", qs[k].clause_span, "postcondition could not be proved by the solver");
                d.push(w);
                proof {
                    lemma_warnings_push(before, r0, w);
                    assert(answers_report(qv.subrange(0, k + 1), a.subrange(0, k + 1)) =~= r0.push(w@));
                }
            },
        }
        k = k + 1;
    }
    assert(qv.subrange(0, n as int) =~= qv);
    assert(a.subrange(0, n as int) =~= a);
    let ghost r1 = answers_report(qv, a);
    let sn = skipped.len();
    let mut j: usize = 0;
    assert(r1 + skipped_report(f.signature.name@, skipped@.subrange(0, 0)) =~= r1);
    while j < sn
        invariant
            sn == skipped@.len(),
            j <= sn,
            warnings_as(d@, r1 + skipped_report(f.signature.name@, skipped@.subrange(0, j as int))),
        decreases sn - j,
    {
        let ghost before = d@;
        let ghost r0 = r1 + skipped_report(f.signature.name@, skipped@.subrange(0, j as int));
        let mut m = String::new();
        push_str(&mut m, "an `ensures` clause of function `");
        push_str(&mut m, f.signature.name.as_str());
        push_str(&mut m, "` was not statically verified: it is outside the supported SMT fragment");
        assert(m@ =~= skipped_message(f.signature.name@));
        let w = Diagnostic::warning("V0001", skipped[j], m.as_str());
        d.push(w);
        proof {
            lemma_warnings_push(before, r0, w);
            assert(r1 + skipped_report(f.signature.name@, skipped@.subrange(0, j + 1)) =~= r0.push(w@));
        }
        j = j + 1;
    }
    assert(skipped@.subrange(0, sn as int) =~= skipped@);
    d
}

/// The report of `module`'s contracts given the solver's answers to its
/// queries, in order: nothing for a proved clause, `V0002` for a refuted
/// one, `V0003` for an undecided one, `V0001` for a function with `ensures`
/// outside the fragment and for each `ensures` clause outside it. Every
/// diagnostic is a warning.
pub fn report(module: &Module, answers: &Vec<Answer>) -> (r: Vec<Diagnostic>)
    requires
        answers@.len() == query_count(module.items@),
    ensures
        warnings_as(r@, report_of(module.items@, answers@)),
{
    let items = &module.items;
    let ghost a = answers@;
    let mut out: Vec<Diagnostic> = Vec::new();
    let mut pos: usize = 0;
    let n = items.len();
    let total = answers.len();
    let mut i: usize = 0;
    assert(items@.subrange(0, 0) =~= Seq::<Item>::empty());
    while i < n
        invariant
            total == answers@.len(),
            n == items@.len(),
            i <= n,
            a == answers@,
            a.len() == query_count(items@),
            pos == query_count(items@.subrange(0, i as int)),
            warnings_as(out@, report_of(items@.subrange(0, i as int), a.subrange(0, pos as int))),
        decreases n - i,
    {
        let ghost q = items@.subrange(0, i + 1);
        proof {
            assert(q.drop_last() =~= items@.subrange(0, i as int));
            assert(q.last() == items@[i as int]);
            lemma_query_count_prefix(items@, i + 1);
        }
        let ghost r0 = report_of(items@.subrange(0, i as int), a.subrange(0, pos as int));
        match &items[i] {
            Item::Function(f) => {
                let mut d = report_function(f, answers, pos);
                let ghost dv = d@;
                let ghost before = out@;
                let c = f.signature.ensures.len();
                out.append(&mut d);
                let ghost pos1 = pos + queries_of(*f).len();
                proof {
                    assert(a.subrange(0, pos1).subrange(0, pos as int) =~= a.subrange(0, pos as int));
                    assert(a.subrange(0, pos1).subrange(pos as int, pos1) =~= a.subrange(pos as int, pos1));
                    lemma_warnings_append(before, r0, dv, fn_report(*f, a.subrange(pos as int, pos1)));
                    assert(out@ =~= before + dv);
                }
                let qc = function_queries(f).len();
                pos = pos + qc;
            },
            Item::Type(_) => {
                assert(a.subrange(0, pos as int).subrange(0, pos as int) =~= a.subrange(0, pos as int));
                assert(r0 + Seq::<(Seq<char>, Span, Seq<char>)>::empty() =~= r0);
            },
        }
        i = i + 1;
    }
    assert(items@.subrange(0, n as int) =~= items@);
    assert(a.subrange(0, pos as int) =~= a);
    out
}

/// `r` is the report of `items` for some answers to their queries: what
/// holds whatever the solver said.
pub open spec fn reported(r: Seq<Diagnostic>, items: Seq<Item>) -> bool {
    exists|a: Seq<Answer>| a.len() == query_count(items) && #[trigger] warnings_as(r, report_of(items, a))
}

/// The queries of a list of items, in order: those of each function.
pub open spec fn module_queries(items: Seq<Item>) -> Seq<(Span, Seq<char>)>
    decreases items.len(),
{
    if items.len() == 0 {
        Seq::empty()
    } else {
        module_queries(items.drop_last()) + match items.last() {
            Item::Function(f) => queries_of(f),
            Item::Type(_) => Seq::empty(),
        }
    }
}

proof fn lemma_module_queries_len(items: Seq<Item>)
    ensures
        module_queries(items).len() == query_count(items),
    decreases items.len(),
{
    if items.len() > 0 {
        lemma_module_queries_len(items.drop_last());
    }
}

/// `r` is the report of `items` for answers that `solver` gave, each to the
/// script of its own query, in order.
pub open spec fn answered_by<S: Solver>(r: Seq<Diagnostic>, items: Seq<Item>, solver: S) -> bool {
    exists|a: Seq<Answer>|
        #![trigger warnings_as(r, report_of(items, a))]
        {
            &&& a.len() == query_count(items)
            &&& forall|k: int| 0 <= k < a.len() ==> solver.gives(module_queries(items)[k].1, #[trigger] a[k])
            &&& warnings_as(r, report_of(items, a))
        }
}

/// Ask `solver` each query of `module`, in order, and report.
fn verify_checked<S: Solver>(module: &Module, solver: &S) -> (r: Vec<Diagnostic>)
    ensures
        reported(r@, module.items@),
        answered_by(r@, module.items@, *solver),
{
    let items = &module.items;
    let mut answers: Vec<Answer> = Vec::new();
    let n = items.len();
    let mut i: usize = 0;
    assert(items@.subrange(0, 0) =~= Seq::<Item>::empty());
    while i < n
        invariant
            n == items@.len(),
            i <= n,
            answers@.len() == query_count(items@.subrange(0, i as int)),
            answers@.len() == module_queries(items@.subrange(0, i as int)).len(),
            forall|k: int|
                0 <= k < answers@.len() ==> solver.gives(module_queries(items@.subrange(0, i as int))[k].1, #[trigger] answers@[k]),
        decreases n - i,
    {
        let ghost q = items@.subrange(0, i + 1);
        let ghost mq0 = module_queries(items@.subrange(0, i as int));
        assert(q.drop_last() =~= items@.subrange(0, i as int));
        assert(q.last() == items@[i as int]);
        proof {
            lemma_module_queries_len(q);
        }
        match &items[i] {
            Item::Function(f) => {
                if f.signature.ensures.len() > 0 {
                    let qs = function_queries(f);
                    let ghost start = answers@.len();
                    let ghost qv = queries_view(qs@);
                    assert(module_queries(q) == mq0 + qv);
                    let m = qs.len();
                    let mut k: usize = 0;
                    while k < m
                        invariant
                            m == qs@.len(),
                            k <= m,
                            qv == queries_view(qs@),
                            start == mq0.len(),
                            answers@.len() == start + k,
                            forall|j: int|
                                0 <= j < answers@.len() ==> solver.gives((mq0 + qv)[j].1, #[trigger] answers@[j]),
                        decreases m - k,
                    {
                        let a = solver.solve(qs[k].script.as_str());
                        proof {
                            assert((mq0 + qv)[start + k].1 == qs@[k as int].script@);
                        }
                        answers.push(a);
                        k = k + 1;
                    }
                    assert(queries_view(qs@).len() == qs@.len());
                } else {
                    assert(queries_of(*f).len() == 0);
                    assert(module_queries(q) =~= mq0);
                }
            },
            Item::Type(_) => {
                assert(module_queries(q) =~= mq0);
            },
        }
        i = i + 1;
    }
    assert(items@.subrange(0, n as int) =~= items@);
    let r = report(module, &answers);
    assert(warnings_as(r@, report_of(items@, answers@)));
    assert(answered_by(r@, module.items@, *solver));
    r
}

/// Statically verify `module`'s contracts with `solver`. When the solver is
/// unavailable verification is skipped and nothing is reported; otherwise the
/// report is that of the solver's answers (see `report`). Every diagnostic is
/// a warning, so the pass never blocks.
pub fn verify<S: Solver>(module: &Module, solver: &S) -> (r: Vec<Diagnostic>)
    ensures
        r@.len() == 0 || reported(r@, module.items@),
        r@.len() == 0 || answered_by(r@, module.items@, *solver),
{
    if !solver.available() {
        return Vec::new();
    }
    verify_checked(module, solver)
}

/// Verify, and say whether the solver was available, asking it exactly once.
/// When it was not, nothing is reported.
pub fn verify_reporting_availability<S: Solver>(module: &Module, solver: &S) -> (r: (Vec<Diagnostic>, bool))
    ensures
        !r.1 ==> r.0@.len() == 0,
        r.1 ==> reported(r.0@, module.items@),
        r.1 ==> answered_by(r.0@, module.items@, *solver),
{
    if !solver.available() {
        return (Vec::new(), false);
    }
    (verify_checked(module, solver), true)
}

/// Verification never blocks: whatever the solver answers, every diagnostic
/// the pass reports is a warning.
pub proof fn law_verification_never_blocks(r: Seq<Diagnostic>, items: Seq<Item>)
    requires
        reported(r, items),
    ensures
        forall|i: int| 0 <= i < r.len() ==> (#[trigger] r[i]).severity == Severity::Warning,
{
    let a = choose|a: Seq<Answer>| a.len() == query_count(items) && #[trigger] warnings_as(r, report_of(items, a));
    assert forall|i: int| 0 <= i < r.len() implies (#[trigger] r[i]).severity == Severity::Warning by {
        assert(r[i]@ == report_of(items, a)[i]);
    }
}

proof fn lemma_unsat_reports_nothing(qs: Seq<(Span, Seq<char>)>, ans: Seq<Answer>)
    requires
        qs.len() <= ans.len(),
        forall|k: int| 0 <= k < ans.len() ==> ans[k] == Answer::Unsat,
    ensures
        answers_report(qs, ans).len() == 0,
    decreases qs.len(),
{
    if qs.len() > 0 {
        lemma_unsat_reports_nothing(qs.drop_last(), ans.subrange(0, qs.len() - 1));
    }
}

/// No `ensures` clause goes unaccounted for: a function with `ensures` either
/// is reported as a whole (`V0001` at its signature), or has one query per
/// clause inside the fragment, whose answer decides its report, and one
/// `V0001` per clause outside it.
pub proof fn law_every_clause_is_queried_or_reported(f: Function, ans: Seq<Answer>)
    requires
        f.signature.ensures@.len() > 0,
        ans.len() == queries_of(f).len(),
    ensures
        queries_of(f).len() == 0 ==> fn_report(f, ans) == seq![("V0001"@, f.signature.span, unverified_message(f.signature.name@))],
        queries_of(f).len() > 0 ==> {
            &&& queries_of(f).len() + skipped_of(f).len() == f.signature.ensures@.len()
            &&& fn_report(f, ans) == answers_report(queries_of(f), ans) + skipped_report(f.signature.name@, skipped_of(f))
            &&& forall|k: int| 0 <= k < skipped_of(f).len() ==> #[trigger] skipped_report(f.signature.name@, skipped_of(f))[k] == (
                "V0001"@,
                skipped_of(f)[k],
                skipped_message(f.signature.name@),
            )
        },
{
    crate::smt::lemma_queries_and_skipped_cover(f);
}

/// When the solver proves every query, the only thing reported is a
/// function left outside the fragment (`V0001`).
pub proof fn law_proved_contracts_leave_only_unverified(items: Seq<Item>, a: Seq<Answer>)
    requires
        a.len() == query_count(items),
        forall|k: int| 0 <= k < a.len() ==> a[k] == Answer::Unsat,
    ensures
        forall|i: int| 0 <= i < report_of(items, a).len() ==> (#[trigger] report_of(items, a)[i]).0 == "V0001"@,
    decreases items.len(),
{
    if items.len() > 0 {
        let pre = items.drop_last();
        let k = query_count(pre);
        lemma_query_count_prefix(items, items.len() - 1);
        assert(items.subrange(0, items.len() - 1) =~= pre);
        law_proved_contracts_leave_only_unverified(pre, a.subrange(0, k as int));
        let tail = match items.last() {
            Item::Function(f) => fn_report(f, a.subrange(k as int, a.len() as int)),
            Item::Type(_) => Seq::empty(),
        };
        match items.last() {
            Item::Function(f) => {
                if f.signature.ensures@.len() > 0 && queries_of(f).len() > 0 {
                    lemma_unsat_reports_nothing(queries_of(f), a.subrange(k as int, a.len() as int));
                }
            },
            Item::Type(_) => {},
        }
        let whole = report_of(pre, a.subrange(0, k as int)) + tail;
        assert(report_of(items, a) == whole);
        assert forall|i: int| 0 <= i < whole.len() implies (#[trigger] whole[i]).0 == "V0001"@ by {
            if i < report_of(pre, a.subrange(0, k as int)).len() {
                assert(whole[i] == report_of(pre, a.subrange(0, k as int))[i]);
            } else {
                assert(whole[i] == tail[i - report_of(pre, a.subrange(0, k as int)).len()]);
            }
        }
    }
}

} // verus!
