//! Driver tests: the check passes run independently of each other.

use std::collections::BTreeMap;

use lib::driver::{check_passes, Program};
use lib::parser::parse;

#[test]
fn passes_run_independently() {
    // This program has BOTH a type error (`1 + true`) and an authority error
    // (`bad` performs Write via `w` without holding `Cap<Write>`).
    let src = "\
fn w(out: Cap<Write>) uses { Write } { return; }
fn bad(x: Int) uses { Write } { w(x); let y = 1 + true; }
";
    let module = parse(src).module;
    let mut modules = BTreeMap::new();
    modules.insert("main".to_string(), module);
    let program = Program {
        modules,
        root: "main".to_string(),
    };

    // Only the type pass: reports the type error, not the authority error.
    let types_only = check_passes(&program, &["types".to_string()]);
    assert!(types_only.iter().any(|d| d.code == "T0001"));
    assert!(
        types_only.iter().all(|d| d.code != "E0301"),
        "authority pass must not run"
    );

    // Only the authority pass: reports the authority error, not the type error.
    let authority_only = check_passes(&program, &["authority".to_string()]);
    assert!(authority_only.iter().any(|d| d.code == "E0301"));
    assert!(
        authority_only.iter().all(|d| d.code != "T0001"),
        "type pass must not run"
    );
}
