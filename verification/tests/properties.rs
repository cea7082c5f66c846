//! Concrete instances of the library's stated properties, and the edge cases
//! of the back ends and the driver.

use std::collections::BTreeMap;

use lib::ast::{Expr, Item, Module};
use lib::diagnostic::Diagnostic;
use lib::span::Span;
use lib::ty::Type;
use lib::codegen::emit_c;
use lib::driver::{check_passes, run, run_collecting, Program};
use lib::env::Env;
use lib::interp::run_main;
use lib::lower::lower;
use lib::parser::parse;
use lib::value::Value;
use lib::verify::{parse_answer, Answer};

fn program_of(src: &str) -> Program {
    let parsed = parse(src);
    assert!(parsed.diagnostics.is_empty(), "source should parse: {:?}", parsed.diagnostics);
    let mut modules = BTreeMap::new();
    modules.insert("main".to_string(), parsed.module);
    Program { modules, root: "main".to_string() }
}

fn lowered(src: &str) -> Module {
    let parsed = parse(src);
    assert!(parsed.diagnostics.is_empty(), "source should parse: {:?}", parsed.diagnostics);
    lower(&parsed.module)
}

#[test]
fn solver_replies_are_read_by_their_first_word() {
    assert_eq!(parse_answer("unsat\n"), Answer::Unsat);
    assert_eq!(parse_answer("  \n sat"), Answer::Sat);
    assert_eq!(parse_answer("unknown"), Answer::Unknown);
    assert_eq!(parse_answer(""), Answer::Unknown);
    assert_eq!(parse_answer("satisfiable"), Answer::Unknown);
    assert_eq!(parse_answer("(error \"line 1\")"), Answer::Unknown);
}

#[test]
fn run_collecting_keeps_the_lines_printed_before_an_error() {
    let program = program_of("fn main() { print(\"before\"); print(char_at(\"ab\", 5)); print(\"after\"); }");
    let (out, err) = run_collecting(&program);
    assert_eq!(out, vec!["before".to_string()]);
    let err = err.expect("out-of-range index is a runtime error");
    assert_eq!(err.message, "`char_at` index 5 is out of range");
}

#[test]
fn run_drops_the_lines_when_main_fails() {
    let program = program_of("fn main() { print(\"before\"); let x = 1 / 0; }");
    let err = run(&program).expect_err("division by zero fails the run");
    assert_eq!(err.message, "division by zero");
}

#[test]
fn run_returns_every_printed_line_in_order() {
    let program = program_of("fn main() { print(1); print(\"two\"); print(true); }");
    let out = run(&program).expect("runs");
    assert_eq!(out, vec!["1".to_string(), "two".to_string(), "true".to_string()]);
}

#[test]
fn a_program_without_main_is_refused_before_running() {
    let program = program_of("fn helper() -> Int { return 1; }");
    let (out, err) = run_collecting(&program);
    assert!(out.is_empty());
    let err = err.expect("no main");
    assert_eq!(err.message, "no `main` function");
    assert_eq!(err.code, "E1000");
}

#[test]
fn two_functions_of_one_name_are_refused_before_running() {
    let program = program_of("fn f() { print(1); }\nfn f() { print(2); }\nfn main() { f(); }");
    let (out, err) = run_collecting(&program);
    assert!(out.is_empty());
    assert_eq!(err.expect("duplicate").code, "E1000");
}

#[test]
fn code_char_of_zero_is_refused_as_nul() {
    let m = lowered("fn main() { print(code_char(0)); }");
    let err = run_main(&m).expect_err("NUL is not text");
    assert_eq!(err.message, "`code_char` argument 0: NUL (U+0000) is not allowed in text");
}

#[test]
fn main_is_handed_the_capability_its_parameter_names() {
    let m = lowered("fn main(net: Cap<Net>) -> Cap<Net> { return net; }");
    match run_main(&m).expect("runs") {
        Value::Capability { authority } => assert_eq!(authority, "Net"),
        other => panic!("expected a capability, got {:?}", other),
    }
}

#[test]
fn emission_refuses_an_unknown_function() {
    let err = emit_c(&lowered("fn main() { nope(1); }")).expect_err("unknown callee");
    assert_eq!(err.message, "unknown function `nope`");
}

#[test]
fn emission_refuses_print_with_two_arguments() {
    let err = emit_c(&lowered("fn main() { print(1, 2); }")).expect_err("print arity");
    assert_eq!(err.message, "`print` expects 1 argument");
}

#[test]
fn emission_refuses_an_unbound_variable() {
    let err = emit_c(&lowered("fn main() { print(x); }")).expect_err("unbound");
    assert_eq!(err.message, "unbound variable `x`");
}

#[test]
fn emission_refuses_a_function_defined_twice() {
    let err = emit_c(&lowered("fn f() { return; }\nfn f() { return; }\nfn main() { f(); }")).expect_err("duplicate");
    assert_eq!(err.message, "function `f` is defined more than once");
}

#[test]
fn emission_of_one_module_twice_gives_the_same_text() {
    let m = lowered("fn sq(x: Int) -> Int { return x * x; }\nfn main() { print(sq(7)); }");
    assert_eq!(emit_c(&m).expect("emits"), emit_c(&m).expect("emits"));
}

#[test]
fn emitted_text_literals_escape_newlines_and_backslashes() {
    let c = emit_c(&lowered("fn main() { print(\"a\\nb\\\\c\"); }")).expect("emits");
    assert!(c.contains("w_text(\"a\\nb\\\\c\")"), "{c}");
}

#[test]
fn a_definition_is_seen_by_lookup_and_undone_by_leaving_its_scope() {
    let mut env = Env::new();
    env.define("x", Value::Int(1), false).expect("fresh");
    env.push_scope();
    env.define("x", Value::Int(2), false).expect("shadowing in a new scope");
    assert_eq!(env.lookup("x"), Some(Value::Int(2)));
    env.pop_scope();
    assert_eq!(env.lookup("x"), Some(Value::Int(1)));
}

#[test]
fn an_immutable_binding_cannot_be_rebound_in_its_scope() {
    let mut env = Env::new();
    env.define("x", Value::Int(1), false).expect("fresh");
    let err = env.define("x", Value::Int(2), false).expect_err("immutable");
    assert_eq!(err, "cannot rebind `x`: it is immutable (declare it with `let mut` to allow rebinding)");
    assert_eq!(env.lookup("x"), Some(Value::Int(1)));
}

#[test]
fn selecting_no_pass_runs_all_of_them() {
    let program = program_of("fn w(out: Cap<Write>) uses { Write } { return; }\nfn bad(x: Int) uses { Write } { w(x); let y = 1 + true; }");
    let all = check_passes(&program, &[]);
    assert!(all.iter().any(|d| d.code == "T0001"));
    assert!(all.iter().any(|d| d.code == "E0301"));
}

#[test]
fn a_failed_precondition_blames_the_caller_and_a_failed_postcondition_the_implementation() {
    let pre = program_of("fn half(x: Int) -> Int requires x > 0 { return x / 2; }\nfn main() { print(half(0)); }");
    let err = run(&pre).expect_err("precondition fails");
    assert_eq!(err.code, "C0001");
    assert_eq!(err.blame, Some(lib::diagnostic::Blame::Caller));

    let post = program_of("fn inc(x: Int) -> Int ensures result > x { return x; }\nfn main() { print(inc(1)); }");
    let err = run(&post).expect_err("postcondition fails");
    assert_eq!(err.code, "C0002");
    assert_eq!(err.blame, Some(lib::diagnostic::Blame::Implementation));
}

#[test]
fn a_call_inside_a_contract_of_a_module_is_qualified_by_linking() {
    let mut modules = BTreeMap::new();
    modules.insert(
        "m".to_string(),
        parse("export fn pos(x: Int) -> Bool { return x > 0; }\nexport fn g(x: Int) -> Int requires pos(x) { return x; }").module,
    );
    modules.insert("main".to_string(), parse("import m\nfn main() { print(m.g(1)); }").module);
    let linked = lib::link::link(&modules, "main");
    let g = linked
        .items
        .iter()
        .find_map(|i| match i {
            Item::Function(f) if f.signature.name == "m.g" => Some(f),
            _ => None,
        })
        .expect("m.g is linked");
    match &g.signature.requires[0].predicate {
        Expr::Call { callee, .. } => match callee.as_ref() {
            Expr::Identifier { name, .. } => assert_eq!(name, "m.pos"),
            other => panic!("unexpected callee {other:?}"),
        },
        other => panic!("unexpected predicate {other:?}"),
    }
}

#[test]
fn json_escaping_leaves_printable_ascii() {
    let d = Diagnostic::error("E0000", Span::new(0, 1), "a\"b\\c\nd\re\tf\u{1}g");
    let json = d.to_json();
    assert!(json.chars().all(|c| (0x20..0x80).contains(&(c as u32))), "{json}");
    assert!(json.contains(r#""message":"a\"b\\c\nd\re\tf\u0001g""#), "{json}");
}

#[test]
fn compatibility_without_error_or_infer_is_equality() {
    let opt_int = Type::Named { name: "Option".to_string(), args: vec![Type::Int] };
    let opt_bool = Type::Named { name: "Option".to_string(), args: vec![Type::Bool] };
    assert!(opt_int.compatible(&opt_int));
    assert!(!opt_int.compatible(&opt_bool));
    assert!(!Type::Int.compatible(&Type::Text));
    let opt_any = Type::Named { name: "Option".to_string(), args: vec![Type::Infer] };
    assert!(opt_any.compatible(&opt_int) && opt_int.compatible(&opt_any));
}

#[test]
fn run_gives_the_collected_lines_or_the_collected_error() {
    let ok = program_of("fn main() { print(1); print(2); }");
    let (lines, err) = run_collecting(&ok);
    assert!(err.is_none());
    assert_eq!(run(&ok).unwrap(), lines);
    let bad = program_of("fn main() { print(1); let x = 1 / 0; }");
    let (lines, err) = run_collecting(&bad);
    assert_eq!(lines, vec!["1".to_string()]);
    assert_eq!(run(&bad).unwrap_err(), err.unwrap());
}
