//! Calls across a module boundary are checked on the linked program exactly
//! like local calls. Each program is built in memory: module name -> source.

use std::collections::BTreeMap;

use lib::driver::{check, Program};
use lib::parser::parse;

fn program(files: &[(&str, &str)], root: &str) -> Program {
    let mut modules = BTreeMap::new();
    for (name, src) in files {
        let parsed = parse(src);
        assert!(parsed.diagnostics.is_empty(), "module {name} should parse: {:?}", parsed.diagnostics);
        modules.insert(name.to_string(), parsed.module);
    }
    Program { modules, root: root.to_string() }
}

fn check_codes(program: &Program) -> Vec<String> {
    check(program).into_iter().map(|d| d.code).collect()
}

#[test]
fn a_cross_module_effect_needs_authority_and_honesty() {
    let prog = program(
        &[
            ("io", "export fn write_file(p: Text, c: Text) uses { Write } { return; }"),
            ("main", "import io\nfn sneaky() { io.write_file(\"x\", \"y\"); }\nfn main() { sneaky(); }"),
        ],
        "main",
    );
    let cs = check_codes(&prog);
    assert!(cs.contains(&"E0101".to_string()), "honesty across boundary: {cs:?}");
    assert!(cs.contains(&"E0301".to_string()), "authority across boundary: {cs:?}");
}

#[test]
fn a_cross_module_call_is_type_checked() {
    let prog = program(
        &[
            ("math", "export fn add(a: Int, b: Int) -> Int { return a + b; }"),
            ("main", "import math\nfn main() { print(math.add(true, 2)); }"),
        ],
        "main",
    );
    let cs = check_codes(&prog);
    assert!(cs.contains(&"T0001".to_string()), "cross-module type check: {cs:?}");
}

#[test]
fn a_cross_module_arity_mismatch_is_caught() {
    let prog = program(
        &[
            ("math", "export fn add(a: Int, b: Int) -> Int { return a + b; }"),
            ("main", "import math\nfn main() { print(math.add(1)); }"),
        ],
        "main",
    );
    let cs = check_codes(&prog);
    assert!(cs.contains(&"T0004".to_string()), "cross-module arity: {cs:?}");
}

#[test]
fn a_cross_module_sink_rejects_tainted_arguments() {
    let prog = program(
        &[
            ("db", "export fn run(q: Tainted<Text>) uses { Query } { return; }"),
            ("main", "import db\nfn handle(input: Tainted<Text>) uses { Query } { db.run(input); }\nfn main() {}"),
        ],
        "main",
    );
    let cs = check_codes(&prog);
    assert!(cs.contains(&"E0401".to_string()), "cross-module taint sink: {cs:?}");
}

#[test]
fn a_safe_cross_module_call_still_checks_clean() {
    let prog = program(
        &[
            ("math", "export fn add(a: Int, b: Int) -> Int { return a + b; }"),
            ("main", "import math\nfn main() { print(math.add(2, 3)); }"),
        ],
        "main",
    );
    let cs = check_codes(&prog);
    assert!(cs.is_empty(), "safe cross-module call must check clean: {cs:?}");
}
