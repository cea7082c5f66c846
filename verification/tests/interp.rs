use lib::ast::{Block, Item};
use lib::diagnostic::Blame;
use lib::interp::{eval_block, eval_expr, run, run_main, Interpreter};
use lib::parser::{parse, parse_expr};
use lib::value::{RuntimeError, Value};

/// Parse a single expression and evaluate it.
fn eval(src: &str) -> Result<Value, RuntimeError> {
    let expr = parse_expr(src).expect("source should parse");
    eval_expr(&expr)
}

/// Parse `stmts` as the body of a function and evaluate that block.
fn eval_body(stmts: &str) -> Result<Value, RuntimeError> {
    let src = format!("fn main() {{ {stmts} }}");
    let result = parse(&src);
    assert!(
        result.diagnostics.is_empty(),
        "diagnostics: {:?}",
        result.diagnostics
    );
    let body: &Block = match &result.module.items[0] {
        Item::Function(f) => &f.body,
        Item::Type(_) => panic!("expected a function"),
    };
    eval_block(body)
}

/// Parse a whole program and call `entry` with `args`.
fn run_program(src: &str, entry: &str, args: Vec<Value>) -> Result<Value, RuntimeError> {
    let result = parse(src);
    assert!(
        result.diagnostics.is_empty(),
        "diagnostics: {:?}",
        result.diagnostics
    );
    run(&result.module, entry, args)
}

#[test]
fn evaluates_literals() {
    assert_eq!(eval("42").unwrap(), Value::Int(42));
    assert_eq!(eval("true").unwrap(), Value::Bool(true));
    assert_eq!(eval(r#""hi""#).unwrap(), Value::Text("hi".into()));
}

#[test]
fn precedence_matches_the_parsed_tree() {
    assert_eq!(eval("1 + 2 * 3").unwrap(), Value::Int(7));
    assert_eq!(eval("(1 + 2) * 3").unwrap(), Value::Int(9));
    assert_eq!(eval("10 - 3 - 2").unwrap(), Value::Int(5));
}

#[test]
fn comparison_and_logic() {
    assert_eq!(eval("1 + 2 < 4").unwrap(), Value::Bool(true));
    assert_eq!(eval("2 == 2").unwrap(), Value::Bool(true));
    assert_eq!(eval("2 != 3").unwrap(), Value::Bool(true));
    assert_eq!(eval("true && false").unwrap(), Value::Bool(false));
    assert_eq!(eval("false || true").unwrap(), Value::Bool(true));
    assert_eq!(eval("!(1 < 2)").unwrap(), Value::Bool(false));
}

#[test]
fn logical_operators_short_circuit() {
    assert_eq!(eval("false && (1 + 1)").unwrap(), Value::Bool(false));
    assert_eq!(eval("true || (1 + 1)").unwrap(), Value::Bool(true));
}

// --- Negative tests: bad programs are runtime errors, never panics.

#[test]
fn division_by_zero_is_a_runtime_error() {
    let e = eval("1 / 0").unwrap_err();
    assert!(e.message.contains("division by zero"), "{}", e.message);
}

#[test]
fn overflow_is_a_runtime_error() {
    let e = eval("9223372036854775807 + 1").unwrap_err();
    assert!(e.message.contains("overflow"), "{}", e.message);
}

#[test]
fn type_mismatch_is_a_runtime_error() {
    let e = eval(r#"1 + "x""#).unwrap_err();
    assert!(e.message.contains("Int"), "{}", e.message);
}

// --- let bindings ------------------------------------------------

#[test]
fn let_binding_resolves_in_later_expressions() {
    let v = eval_body("let x = 2; let y = x + 3; return y;").unwrap();
    assert_eq!(v, Value::Int(5));
}

#[test]
fn return_stops_the_block() {
    let v = eval_body("let x = 1; return x; let y = 99;").unwrap();
    assert_eq!(v, Value::Int(1));
}

#[test]
fn immutable_rebinding_is_a_checked_error() {
    let e = eval_body("let x = 1; let x = 2; return x;").unwrap_err();
    assert!(e.message.contains("immutable"), "{}", e.message);
}

#[test]
fn mutable_rebinding_is_allowed() {
    let v = eval_body("let mut x = 1; let x = 2; return x;").unwrap();
    assert_eq!(v, Value::Int(2));
}

#[test]
fn unbound_variable_is_a_runtime_error() {
    let e = eval_body("return missing;").unwrap_err();
    assert!(e.message.contains("unbound"), "{}", e.message);
}

// --- if / else ---------------------------------------------------

#[test]
fn if_runs_the_matching_branch() {
    assert_eq!(
        eval_body("if 5 > 3 { return 1; } return 2;").unwrap(),
        Value::Int(1)
    );
    assert_eq!(
        eval_body("if 1 > 3 { return 1; } return 2;").unwrap(),
        Value::Int(2)
    );
}

#[test]
fn if_else_selects_the_else_branch() {
    assert_eq!(
        eval_body("if false { return 1; } else { return 2; }").unwrap(),
        Value::Int(2)
    );
}

#[test]
fn else_if_chains() {
    let body = "let x = 2;\
        if x == 1 { return 10; } else if x == 2 { return 20; } else { return 30; }\
        return 0;";
    assert_eq!(eval_body(body).unwrap(), Value::Int(20));
}

#[test]
fn non_bool_condition_is_a_runtime_error() {
    let e = eval_body("if 1 { return 1; } return 0;").unwrap_err();
    assert!(e.message.contains("Bool"), "{}", e.message);
}

// --- functions and calls -----------------------------------------

#[test]
fn function_with_parameters_and_return() {
    let src = "fn add(a: Int, b: Int) -> Int { return a + b; }";
    assert_eq!(
        run_program(src, "add", vec![Value::Int(3), Value::Int(4)]).unwrap(),
        Value::Int(7)
    );
}

#[test]
fn nested_calls_propagate_return_values() {
    let src = "\
fn inc(x: Int) -> Int { return x + 1; }
fn double(x: Int) -> Int { return x + x; }
fn main() -> Int { return double(inc(4)); }
";
    assert_eq!(run_program(src, "main", vec![]).unwrap(), Value::Int(10));
}

#[test]
fn recursion_terminates_via_a_base_case() {
    let src = "\
fn fact(n: Int) -> Int {
if n <= 1 { return 1; }
return n * fact(n - 1);
}
";
    assert_eq!(
        run_program(src, "fact", vec![Value::Int(5)]).unwrap(),
        Value::Int(120)
    );
}

#[test]
fn wrong_argument_count_is_a_runtime_error() {
    let src = "fn add(a: Int, b: Int) -> Int { return a + b; }";
    let e = run_program(src, "add", vec![Value::Int(1)]).unwrap_err();
    assert!(e.message.contains("expects 2"), "{}", e.message);
}

#[test]
fn unknown_function_is_a_runtime_error() {
    let src = "fn main() -> Int { return nope(1); }";
    let e = run_program(src, "main", vec![]).unwrap_err();
    assert!(e.message.contains("unknown function"), "{}", e.message);
}

#[test]
fn duplicate_function_names_are_refused() {
    let src = "fn f() -> Int { return 1; } fn f() -> Int { return 2; }";
    let result = parse(src);
    let e = run(&result.module, "f", vec![]).unwrap_err();
    assert!(e.message.contains("more than once"), "{}", e.message);
}

// --- stdlib: print -----------------------------------------------

#[test]
fn print_builtin_collects_output() {
    let src = "\
fn main() {
print(\"a\");
print(1 + 2);
print(true);
}
";
    let result = parse(src);
    assert!(
        result.diagnostics.is_empty(),
        "diagnostics: {:?}",
        result.diagnostics
    );
    let mut interp = Interpreter::new(&result.module).unwrap();
    interp.call("main", vec![]).unwrap();
    assert_eq!(
        interp.output(),
        vec!["a".to_string(), "3".to_string(), "true".to_string()]
    );
}

// --- sum types: runtime match ------------------------------------

#[test]
fn match_dispatches_on_the_variant_and_binds_payload() {
    let src = "\
type Option = Some(Int) | None
fn unwrap_or(o: Option, fallback: Int) -> Int {
return match o {
    Some(x) => x,
    None    => fallback,
};
}
fn some_case() -> Int { return unwrap_or(Some(7), 0); }
fn none_case() -> Int { return unwrap_or(None, 42); }
";
    assert_eq!(
        run_program(src, "some_case", vec![]).unwrap(),
        Value::Int(7)
    );
    assert_eq!(
        run_program(src, "none_case", vec![]).unwrap(),
        Value::Int(42)
    );
}

#[test]
fn wildcard_and_binding_patterns_match() {
    let src = "\
type Color = Red | Green | Blue
fn code(c: Color) -> Int {
return match c {
    Red => 1,
    other => 0,
};
}
fn red() -> Int { return code(Red); }
fn blue() -> Int { return code(Blue); }
";
    assert_eq!(run_program(src, "red", vec![]).unwrap(), Value::Int(1));
    // Green/Blue fall through to the `other` binding arm.
    assert_eq!(run_program(src, "blue", vec![]).unwrap(), Value::Int(0));
}

#[test]
fn constructor_arity_mismatch_is_a_runtime_error() {
    let src = "\
type Pair = Pair(Int, Int)
fn f() -> Int { return match Pair(1) { Pair(a, b) => a, _ => 0 }; }
";
    let e = run_program(src, "f", vec![]).unwrap_err();
    assert!(e.message.contains("expects 2"), "{}", e.message);
}

#[test]
fn a_value_matching_no_arm_is_a_runtime_error() {
    // No wildcard, and Blue is not covered — detected at evaluation.
    let src = "\
type Color = Red | Green | Blue
fn code(c: Color) -> Int { return match c { Red => 1, Green => 2 }; }
fn f() -> Int { return code(Blue); }
";
    let e = run_program(src, "f", vec![]).unwrap_err();
    assert!(e.message.contains("no match arm"), "{}", e.message);
}

// --- capabilities: root + grant at runtime -----------------------

#[test]
fn run_main_hands_main_a_root_capability_that_grant_narrows() {
    let src = "\
fn write_line(out: Cap<Write>, msg: Text) uses { Write } { return; }
fn main(root: Cap<Root>) uses { Write } {
write_line(grant<Write>(root), \"ok\");
}
";
    let result = parse(src);
    assert!(
        result.diagnostics.is_empty(),
        "diagnostics: {:?}",
        result.diagnostics
    );
    // The runtime supplies the root capability; narrowing and the effectful
    // call run without error.
    assert_eq!(run_main(&result.module).unwrap(), Value::Unit);
}

#[test]
fn grant_mints_a_capability_tagged_with_its_authority() {
    let src = "fn main(root: Cap<Root>) -> Cap<Write> { return grant<Write>(root); }";
    let result = parse(src);
    // (The static checker would reject returning a capability; here we only
    // exercise the runtime value that `grant` produces.)
    let v = run_main(&result.module).unwrap();
    assert_eq!(
        v,
        Value::Capability {
            authority: "Write".to_string()
        }
    );
}

// --- contracts: runtime checking with blame ----------------------

#[test]
fn precondition_holds_then_body_runs() {
    let src = "fn half(n: Int) -> Int requires n > 0 { return n / 2; }";
    assert_eq!(
        run_program(src, "half", vec![Value::Int(4)]).unwrap(),
        Value::Int(2)
    );
}

#[test]
fn lib_failed_precondition_blames_the_caller() {
    let src = "fn half(n: Int) -> Int requires n > 0 { return n / 2; }";
    let e = run_program(src, "half", vec![Value::Int(0)]).unwrap_err();
    assert_eq!(e.blame, Some(Blame::Caller));
    assert!(e.message.contains("precondition"), "{}", e.message);
}

#[test]
fn satisfied_postcondition_passes() {
    // `result` refers to the return value; the postcondition also sees params.
    let src = "fn inc(n: Int) -> Int ensures result > n { return n + 1; }";
    assert_eq!(
        run_program(src, "inc", vec![Value::Int(5)]).unwrap(),
        Value::Int(6)
    );
}

#[test]
fn lib_failed_postcondition_blames_the_implementation() {
    // A wrong-but-harmless absolute value: returns its input unchanged.
    let src = "fn abs(n: Int) -> Int ensures result >= 0 { return n; }";
    // Allowed input, wrong answer => implementation is blamed.
    let e = run_program(src, "abs", vec![Value::Int(0 - 5)]).unwrap_err();
    assert_eq!(e.blame, Some(Blame::Implementation));
    assert!(e.message.contains("postcondition"), "{}", e.message);
    // A correct result satisfies it.
    assert_eq!(
        run_program(src, "abs", vec![Value::Int(5)]).unwrap(),
        Value::Int(5)
    );
}

#[test]
fn ordinary_runtime_errors_carry_no_blame() {
    let src = "fn boom(n: Int) -> Int { return n / 0; }";
    let e = run_program(src, "boom", vec![Value::Int(1)]).unwrap_err();
    assert_eq!(e.blame, None);
}

#[test]
fn print_with_wrong_arity_is_a_runtime_error() {
    let src = "fn main() { print(1, 2); }";
    let result = parse(src);
    let mut interp = Interpreter::new(&result.module).unwrap();
    let e = interp.call("main", vec![]).unwrap_err();
    assert!(e.message.contains("`print` expects 1"), "{}", e.message);
}

#[test]
fn a_block_without_return_is_unit() {
    assert_eq!(eval_body("1 + 2;").unwrap(), Value::Unit);
    assert_eq!(eval_body("let x = 4; x * 2;").unwrap(), Value::Unit);
}

#[test]
fn an_empty_interpreter_has_no_functions_and_no_output() {
    let mut interp = Interpreter::empty();
    assert!(interp.output().is_empty());
    let err = interp.call("main", Vec::new()).unwrap_err();
    assert_eq!(err.code, "E1000");
}

#[test]
fn a_function_defined_twice_is_refused_at_its_second_signature() {
    let m = parse("fn f() { return; }\nfn f() { return; }").module;
    let second = match &m.items[1] {
        Item::Function(f) => f.signature.span,
        Item::Type(_) => panic!("expected a function"),
    };
    let err = Interpreter::new(&m).err().expect("duplicate refused");
    assert_eq!(err.code, "E1000");
    assert!(err.message.contains("more than once"), "{}", err.message);
    assert_eq!(err.span, second);
}
