use lib::ast::{
    BinaryOp, Block, Contract, Effect, EffectSet, Expr, Function, Item, Literal, LiteralKind,
    Module, Param, Signature, Stmt, TypeExpr,
};
use lib::span::Span;

fn sp() -> Span {
    Span::new(0, 1)
}

#[test]
fn expr_span_reports_own_span() {
    let e = Expr::Identifier {
        name: "x".into(),
        span: Span::new(4, 5),
    };
    assert_eq!(e.span(), Span::new(4, 5));

    let lit = Expr::Literal(Literal {
        kind: LiteralKind::Int(1),
        span: Span::new(2, 3),
    });
    assert_eq!(lit.span(), Span::new(2, 3));
}

#[test]
fn binary_expression_nests() {
    // 1 + 2 * 3  parsed as  1 + (2 * 3)
    let mul = Expr::Binary {
        op: BinaryOp::Mul,
        left: Box::new(Expr::Literal(Literal {
            kind: LiteralKind::Int(2),
            span: sp(),
        })),
        right: Box::new(Expr::Literal(Literal {
            kind: LiteralKind::Int(3),
            span: sp(),
        })),
        span: sp(),
    };
    let add = Expr::Binary {
        op: BinaryOp::Add,
        left: Box::new(Expr::Literal(Literal {
            kind: LiteralKind::Int(1),
            span: sp(),
        })),
        right: Box::new(mul),
        span: sp(),
    };
    match add {
        Expr::Binary {
            op: BinaryOp::Add,
            right,
            ..
        } => {
            assert!(matches!(
                *right,
                Expr::Binary {
                    op: BinaryOp::Mul,
                    ..
                }
            ));
        }
        _ => panic!("expected a top-level Add"),
    }
}

#[test]
fn signature_has_room_for_effects_and_contracts() {
    let sig = Signature {
        name: "write_line".into(),
        params: vec![
            Param {
                name: "out".into(),
                ty: TypeExpr {
                    name: "Cap".into(),
                    args: vec![TypeExpr {
                        name: "Write".into(),
                        args: vec![],
                        span: sp(),
                    }],
                    span: sp(),
                },
                span: sp(),
            },
            Param {
                name: "msg".into(),
                ty: TypeExpr {
                    name: "Text".into(),
                    args: vec![],
                    span: sp(),
                },
                span: sp(),
            },
        ],
        return_type: None,
        effects: EffectSet {
            effects: vec![Effect {
                name: "Write".into(),
                span: sp(),
            }],
            span: Some(sp()),
        },
        requires: vec![Contract {
            predicate: Expr::Literal(Literal {
                kind: LiteralKind::Bool(true),
                span: sp(),
            }),
            span: sp(),
        }],
        ensures: vec![Contract {
            predicate: Expr::Literal(Literal {
                kind: LiteralKind::Bool(true),
                span: sp(),
            }),
            span: sp(),
        }],
        span: sp(),
    };

    assert_eq!(sig.params.len(), 2);
    assert_eq!(sig.effects.effects.len(), 1);
    assert_eq!(sig.effects.effects[0].name, "Write");
    assert_eq!(sig.requires.len(), 1);
    assert_eq!(sig.ensures.len(), 1);
}

#[test]
fn empty_effect_set_is_default() {
    let e = EffectSet::default();
    assert!(e.effects.is_empty());
    assert!(e.span.is_none());
}

#[test]
fn module_collects_items() {
    let m = Module {
        imports: vec![],
        items: vec![Item::Function(Function {
            exported: false,
            signature: Signature {
                name: "main".into(),
                params: vec![],
                return_type: None,
                effects: EffectSet::default(),
                requires: vec![],
                ensures: vec![],
                span: sp(),
            },
            body: Block {
                stmts: vec![Stmt::Return {
                    value: None,
                    span: sp(),
                }],
                span: sp(),
            },
            span: sp(),
        })],
    };
    assert_eq!(m.items.len(), 1);
    assert!(Module::default().items.is_empty());
}
