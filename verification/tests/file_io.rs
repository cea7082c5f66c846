//! The built-ins `read_file` and `write_file` perform `Read` and `Write`: a
//! call to one is an effect site, held to honesty and authority like a call
//! of a function that declares the effect. Programs are built in memory.

use std::collections::BTreeMap;

use lib::authority::check_authority;
use lib::driver::{check, Program};
use lib::effects::check_effects;
use lib::parser::parse;

fn check_codes(src: &str) -> Vec<String> {
    let parsed = parse(src);
    assert!(parsed.diagnostics.is_empty(), "should parse: {:?}", parsed.diagnostics);
    let mut modules = BTreeMap::new();
    modules.insert("main".to_string(), parsed.module);
    let program = Program { modules, root: "main".to_string() };
    check(&program).into_iter().map(|d| d.code).collect()
}

#[test]
fn reaching_the_filesystem_without_declaring_the_effect_is_refused() {
    let codes = check_codes("fn reader(c: Cap<Read>) -> Text { return read_file(c, \"x\"); }\nfn main() {}");
    assert!(codes.contains(&"E0101".to_string()), "honesty (E0101): {codes:?}");
}

#[test]
fn reaching_the_filesystem_without_the_capability_is_refused() {
    let codes = check_codes("fn reader(c: Cap<Write>) -> Text uses { Read } { return read_file(c, \"x\"); }\nfn main() {}");
    assert!(codes.contains(&"E0301".to_string()), "authority (E0301): {codes:?}");
}

#[test]
fn a_declared_and_held_file_write_is_neither_dishonest_nor_unauthorized() {
    let m = parse("fn save(c: Cap<Write>) uses { Write } { write_file(c, \"f\", \"x\"); }\nfn main() {}").module;
    assert!(check_effects(&m).is_empty());
    assert!(check_authority(&m).is_empty());
}

#[test]
fn a_file_read_names_the_read_effect_in_both_passes() {
    let m = parse("fn peek() -> Text { return read_file(\"x\"); }\nfn main() {}").module;
    let honesty = check_effects(&m);
    assert_eq!(honesty.len(), 1);
    assert_eq!(honesty[0].code, "E0101");
    assert!(honesty[0].message.contains("Read"), "{}", honesty[0].message);
    let authority = check_authority(&m);
    assert_eq!(authority.len(), 1);
    assert_eq!(authority[0].code, "E0301");
    assert!(authority[0].message.contains("Read"), "{}", authority[0].message);
}
