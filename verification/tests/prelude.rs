//! `Option` and `Result` are in scope with no declaration or import, and a
//! user-declared type of the same name shadows the prelude one.

use std::collections::BTreeMap;

use lib::driver::{check, run, Program};
use lib::parser::parse;

fn check_and_run(src: &str) -> Vec<String> {
    let parsed = parse(src);
    assert!(parsed.diagnostics.is_empty(), "should parse: {:?}", parsed.diagnostics);
    let mut modules = BTreeMap::new();
    modules.insert("main".to_string(), parsed.module);
    let program = Program { modules, root: "main".to_string() };
    let diags = check(&program);
    assert!(!diags.iter().any(|d| d.is_error()), "should check cleanly: {diags:?}");
    run(&program).expect("run")
}

#[test]
fn option_is_available_without_declaration() {
    let out = check_and_run(
        "fn describe(o: Option<Int>) -> Text {\n\
            return match o { Some(x) => \"some\", None => \"none\" };\n\
         }\n\
         fn main() { print(describe(Some(3))); print(describe(None)); }",
    );
    assert_eq!(out, vec!["some", "none"]);
}

#[test]
fn result_is_available_without_declaration() {
    let out = check_and_run(
        "fn is_ok(r: Result<Int, Text>) -> Bool {\n\
            return match r { Ok(x) => true, Err(e) => false };\n\
         }\n\
         fn main() { print(is_ok(Ok(1))); print(is_ok(Err(\"bad\"))); }",
    );
    assert_eq!(out, vec!["true", "false"]);
}

#[test]
fn a_user_type_of_the_same_name_shadows_the_prelude() {
    let out = check_and_run(
        "type Option<T> = Some(T) | None\n\
         fn f(o: Option<Int>) -> Int { return match o { Some(x) => x, None => 0 }; }\n\
         fn main() { print(f(Some(5))); print(f(None)); }",
    );
    assert_eq!(out, vec!["5", "0"]);
}
