use lib::ast::{BinaryOp, Expr, Item, Literal, LiteralKind, Stmt, UnaryOp};
use lib::lexer::lex;
use lib::parser::{parse, parse_expr};
use lib::token::{Keyword, TokenKind};

fn op_of(e: &Expr) -> Option<BinaryOp> {
    match e {
        Expr::Binary { op, .. } => Some(*op),
        _ => None,
    }
}

#[test]
fn crate_builds() {}

#[test]
fn precedence_multiplication_binds_tighter_than_addition() {
    let e = parse_expr("1 + 2 * 3").unwrap();
    assert_eq!(op_of(&e), Some(BinaryOp::Add));
    if let Expr::Binary { right, .. } = e {
        assert_eq!(op_of(&right), Some(BinaryOp::Mul));
    } else {
        panic!("expected Add at the root");
    }
}

#[test]
fn parentheses_override_precedence() {
    let e = parse_expr("(1 + 2) * 3").unwrap();
    assert_eq!(op_of(&e), Some(BinaryOp::Mul));
    if let Expr::Binary { left, .. } = e {
        assert_eq!(op_of(&left), Some(BinaryOp::Add));
    } else {
        panic!("expected Mul at the root");
    }
}

#[test]
fn subtraction_is_left_associative() {
    let e = parse_expr("10 - 3 - 2").unwrap();
    assert_eq!(op_of(&e), Some(BinaryOp::Sub));
    if let Expr::Binary { left, right, .. } = e {
        assert_eq!(op_of(&left), Some(BinaryOp::Sub));
        assert!(matches!(
            *right,
            Expr::Literal(Literal {
                kind: LiteralKind::Int(2),
                ..
            })
        ));
    } else {
        panic!("expected Sub at the root");
    }
}

#[test]
fn comparison_binds_looser_than_arithmetic() {
    let e = parse_expr("1 + 2 < 3 * 4").unwrap();
    assert_eq!(op_of(&e), Some(BinaryOp::Lt));
}

#[test]
fn unary_and_call_parse() {
    let e = parse_expr("-f(1, 2)").unwrap();
    assert!(matches!(
        e,
        Expr::Unary {
            op: UnaryOp::Neg,
            ..
        }
    ));
}

#[test]
fn round_trips_a_sample_program() {
    let source = "\
fn add(a: Int, b: Int) -> Int {
    let sum = a + b;
    return sum;
}
";
    let result = parse(source);
    assert!(
        result.diagnostics.is_empty(),
        "diagnostics: {:?}",
        result.diagnostics
    );
    assert_eq!(result.module.items.len(), 1);
    let Item::Function(f) = &result.module.items[0] else {
        panic!("expected a function")
    };
    assert_eq!(f.signature.name, "add");
    assert_eq!(f.signature.params.len(), 2);
    assert_eq!(f.signature.params[0].ty.name, "Int");
    assert_eq!(f.signature.return_type.as_ref().unwrap().name, "Int");
    assert_eq!(f.body.stmts.len(), 2);
    assert!(matches!(f.body.stmts[0], Stmt::Let { .. }));
    assert!(matches!(
        f.body.stmts[1],
        Stmt::Return { value: Some(_), .. }
    ));
}

#[test]
fn parses_generic_type_argument() {
    let source = "fn write(out: Cap<Write>) { return; }";
    let result = parse(source);
    assert!(
        result.diagnostics.is_empty(),
        "diagnostics: {:?}",
        result.diagnostics
    );
    let Item::Function(f) = &result.module.items[0] else {
        panic!("expected a function")
    };
    let ty = &f.signature.params[0].ty;
    assert_eq!(ty.name, "Cap");
    assert_eq!(ty.args.len(), 1);
    assert_eq!(ty.args[0].name, "Write");
}

#[test]
fn missing_operand_is_refused() {
    let err = parse_expr("1 +").unwrap_err();
    assert_eq!(err[0].code, "P0002");
}

#[test]
fn unclosed_paren_is_refused() {
    let err = parse_expr("(1 + 2").unwrap_err();
    assert_eq!(err[0].code, "P0001");
}

#[test]
fn non_item_at_top_level_is_refused() {
    let result = parse("let x = 1;");
    assert_eq!(result.diagnostics.len(), 1);
    assert_eq!(result.diagnostics[0].code, "P0002");
}

#[test]
fn signature_clauses_types_and_matches_parse() {
    let source = "\
import util
export type Option<T> = Some(T) | None
fn half(n: Int, f: fn(Int) -> Bool) -> Int uses { Write, Net } requires n > 0 ensures result >= 0 {
    let r = match Some(n) { Some(x) => x / 2, _ => 0 };
    if r > 1 { return r; } else if r == 1 { return 1; } else { return util.zero(); }
}
";
    let result = parse(source);
    assert!(result.diagnostics.is_empty(), "{:?}", result.diagnostics);
    assert_eq!(result.module.imports.len(), 1);
    assert_eq!(result.module.imports[0].name, "util");
    assert_eq!(result.module.items.len(), 2);
    let Item::Type(t) = &result.module.items[0] else {
        panic!("expected a type")
    };
    assert!(t.exported);
    assert_eq!(t.generics, vec!["T".to_string()]);
    assert_eq!(t.variants.len(), 2);
    let Item::Function(f) = &result.module.items[1] else {
        panic!("expected a function")
    };
    assert_eq!(f.signature.effects.effects.len(), 2);
    assert_eq!(f.signature.requires.len(), 1);
    assert_eq!(f.signature.ensures.len(), 1);
    assert_eq!(f.signature.params[1].ty.name, "fn");
    assert_eq!(f.signature.params[1].ty.args.len(), 2);
}

#[test]
fn grant_takes_explicit_type_arguments() {
    let e = parse_expr("grant<Write>(root)").unwrap();
    let Expr::Call { type_args, args, .. } = e else {
        panic!("expected a call")
    };
    assert_eq!(type_args.len(), 1);
    assert_eq!(type_args[0].name, "Write");
    assert_eq!(args.len(), 1);
    // Without a following call, `<` stays a comparison.
    assert_eq!(op_of(&parse_expr("a < b").unwrap()), Some(BinaryOp::Lt));
}

#[test]
fn lexer_spans_and_keywords() {
    let r = lex("let x = \"a\\n\"; // note\n12");
    assert!(r.diagnostics.is_empty());
    let kinds: Vec<TokenKind> = r.tokens.iter().map(|t| t.kind.clone()).collect();
    assert_eq!(
        kinds,
        vec![
            TokenKind::Keyword(Keyword::Let),
            TokenKind::Ident("x".to_string()),
            TokenKind::Eq,
            TokenKind::Text("a\n".to_string()),
            TokenKind::Semicolon,
            TokenKind::Int(12),
            TokenKind::Eof,
        ]
    );
    assert_eq!(r.tokens[1].span.start, 4);
    let last = r.tokens.last().unwrap();
    assert_eq!((last.span.start, last.span.end), (25, 25));
    assert_eq!(Keyword::lookup("match"), Some(Keyword::Match));
    assert_eq!(Keyword::lookup("type"), None);
    let bad = lex("1 @ 99999999999999999999");
    let codes: Vec<&str> = bad.diagnostics.iter().map(|d| d.code.as_str()).collect();
    assert_eq!(codes, vec!["L0001", "L0002"]);
}
