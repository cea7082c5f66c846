use lib::diagnostic::{diagnostics_to_json, Blame, Diagnostic, Severity};
use lib::span::Span;

#[test]
fn error_constructor_sets_fields() {
    let d = Diagnostic::error("E0001", Span::new(0, 3), "unexpected token");
    assert_eq!(d.code, "E0001");
    assert_eq!(d.span, Span::new(0, 3));
    assert_eq!(d.message, "unexpected token");
    assert!(d.is_error());
}

#[test]
fn warning_is_not_an_error() {
    let d = Diagnostic::warning("W0001", Span::new(1, 2), "unused binding");
    assert!(!d.is_error());
    assert_eq!(d.severity, Severity::Warning);
}

#[test]
fn to_json_has_stable_field_order() {
    let d = Diagnostic::error("P0001", Span::new(4, 7), "expected `)`");
    assert_eq!(
        d.to_json(),
        r#"{"code":"P0001","severity":"error","span":{"start":4,"end":7},"message":"expected `)`"}"#
    );
}

#[test]
fn to_json_escapes_message() {
    let d = Diagnostic::error("L0001", Span::new(0, 1), "bad \"quote\"\nand\ttab");
    assert_eq!(
        d.to_json(),
        r#"{"code":"L0001","severity":"error","span":{"start":0,"end":1},"message":"bad \"quote\"\nand\ttab"}"#
    );
}

#[test]
fn blame_is_emitted_only_when_present() {
    let plain = Diagnostic::error("E1000", Span::new(0, 1), "boom");
    assert!(!plain.to_json().contains("blame"));

    let contract = Diagnostic::error("C0002", Span::new(4, 9), "postcondition violated")
        .with_blame(Blame::Implementation);
    assert_eq!(
        contract.to_json(),
        r#"{"code":"C0002","severity":"error","span":{"start":4,"end":9},"message":"postcondition violated","blame":"implementation"}"#
    );
}

#[test]
fn serialization_is_deterministic() {
    let d = Diagnostic::warning("W0007", Span::new(2, 9), "shadowed");
    assert_eq!(d.to_json(), d.to_json());
}

#[test]
fn diagnostics_to_json_is_an_ordered_array() {
    let ds = vec![
        Diagnostic::error("E1", Span::new(0, 1), "a"),
        Diagnostic::error("E2", Span::new(2, 3), "b"),
    ];
    assert_eq!(
        diagnostics_to_json(&ds),
        r#"[{"code":"E1","severity":"error","span":{"start":0,"end":1},"message":"a"},{"code":"E2","severity":"error","span":{"start":2,"end":3},"message":"b"}]"#
    );
    assert_eq!(diagnostics_to_json(&[]), "[]");
}

#[test]
fn control_characters_are_escaped_as_unicode() {
    let d = Diagnostic::warning("W1", Span::new(10, 123), "a\u{1}b\\");
    assert_eq!(
        d.to_json(),
        r#"{"code":"W1","severity":"warning","span":{"start":10,"end":123},"message":"a\u0001b\\"}"#
    );
    assert_eq!(Severity::Error.as_str(), "error");
    assert_eq!(Blame::Caller.as_str(), "caller");
}
