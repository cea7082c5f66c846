//! The grammar as plain data: the tree the parser builds from a token list,
//! rule by rule, and the diagnostic it stops with.
//!
//! Every rule takes the tokens and a position and gives either the tree it
//! read with the position after it, or the diagnostic (code, span, message)
//! at which parsing stops.

use vstd::prelude::*;
use crate::ast::{BinaryOp, Block, Contract, Effect, Expr, Function, Import, Item, LiteralKind, MatchArm, Module, Param, Pattern, Stmt, TypeDecl, TypeExpr, UnaryOp, Variant};
use crate::diagnostic::Blame;
use crate::parser::{kind_at, spec_binding_power};
use crate::span::Span;
use crate::token::{Keyword, Token, TokenKind};

verus! {

/// A parse diagnostic: code, span, message.
pub type PDiag = (Seq<char>, Span, Seq<char>);

/// A literal as plain data.
pub enum LitV {
    Int(i64),
    Bool(bool),
    Text(Seq<char>),
}

/// A written type as plain data.
pub struct TexV {
    pub name: Seq<char>,
    pub args: Seq<TexV>,
    pub span: Span,
}

/// A pattern as plain data.
pub enum PatV {
    Wild(Span),
    Name(Seq<char>, Span),
    Variant(Seq<char>, Seq<PatV>, Span),
}

/// An expression as plain data.
pub enum ExprV {
    Lit(LitV, Span),
    Ident(Seq<char>, Span),
    Unary(UnaryOp, Box<ExprV>, Span),
    Binary(BinaryOp, Box<ExprV>, Box<ExprV>, Span),
    Call(Box<ExprV>, Seq<TexV>, Seq<ExprV>, Span),
    Match(Box<ExprV>, Seq<ArmV>, Span),
    Member(Box<ExprV>, Seq<char>, Span),
}

/// A match arm as plain data.
pub struct ArmV {
    pub pattern: PatV,
    pub body: ExprV,
    pub span: Span,
}

// --- Views ------------------------------------------------------------------

pub open spec fn lit_view(k: LiteralKind) -> LitV {
    match k {
        LiteralKind::Int(n) => LitV::Int(n),
        LiteralKind::Bool(b) => LitV::Bool(b),
        LiteralKind::Text(s) => LitV::Text(s@),
    }
}

pub open spec fn tex_view(t: TypeExpr) -> TexV
    decreases t, 1int,
{
    TexV { name: t.name@, args: tex_views(t.args@), span: t.span }
}

pub open spec fn tex_views(ts: Seq<TypeExpr>) -> Seq<TexV>
    decreases ts, 0int,
{
    if ts.len() == 0 {
        Seq::empty()
    } else {
        tex_views(ts.subrange(0, ts.len() - 1)).push(tex_view(ts[ts.len() - 1]))
    }
}

pub open spec fn pat_view(p: Pattern) -> PatV
    decreases p, 1int,
{
    match p {
        Pattern::Wildcard { span } => PatV::Wild(span),
        Pattern::Ident { name, span } => PatV::Name(name@, span),
        Pattern::Variant { name, args, span } => PatV::Variant(name@, pat_views(args@), span),
    }
}

pub open spec fn pat_views(ps: Seq<Pattern>) -> Seq<PatV>
    decreases ps, 0int,
{
    if ps.len() == 0 {
        Seq::empty()
    } else {
        pat_views(ps.subrange(0, ps.len() - 1)).push(pat_view(ps[ps.len() - 1]))
    }
}

pub open spec fn expr_view(e: Expr) -> ExprV
    decreases e, 2int,
{
    match e {
        Expr::Literal(lit) => ExprV::Lit(lit_view(lit.kind), lit.span),
        Expr::Identifier { name, span } => ExprV::Ident(name@, span),
        Expr::Unary { op, operand, span } => ExprV::Unary(op, Box::new(expr_view(*operand)), span),
        Expr::Binary { op, left, right, span } => ExprV::Binary(op, Box::new(expr_view(*left)), Box::new(expr_view(*right)), span),
        Expr::Call { callee, type_args, args, span } => ExprV::Call(
            Box::new(expr_view(*callee)),
            tex_views(type_args@),
            expr_views(args@),
            span,
        ),
        Expr::Match { scrutinee, arms, span } => ExprV::Match(Box::new(expr_view(*scrutinee)), arm_views(arms@), span),
        Expr::Member { base, name, span } => ExprV::Member(Box::new(expr_view(*base)), name@, span),
    }
}

pub open spec fn expr_views(es: Seq<Expr>) -> Seq<ExprV>
    decreases es, 1int,
{
    if es.len() == 0 {
        Seq::empty()
    } else {
        expr_views(es.subrange(0, es.len() - 1)).push(expr_view(es[es.len() - 1]))
    }
}

pub open spec fn arm_views(arms: Seq<MatchArm>) -> Seq<ArmV>
    decreases arms, 1int,
{
    if arms.len() == 0 {
        Seq::empty()
    } else {
        let a = arms[arms.len() - 1];
        proof {
            assert(decreases_to!(arms => a));
        }
        arm_views(arms.subrange(0, arms.len() - 1)).push(ArmV { pattern: pat_view(a.pattern), body: expr_view(a.body), span: a.span })
    }
}

/// The span of an expression's tree.
pub open spec fn span_of(e: ExprV) -> Span {
    match e {
        ExprV::Lit(_, s) => s,
        ExprV::Ident(_, s) => s,
        ExprV::Unary(_, _, s) => s,
        ExprV::Binary(_, _, _, s) => s,
        ExprV::Call(_, _, _, s) => s,
        ExprV::Match(_, _, s) => s,
        ExprV::Member(_, _, s) => s,
    }
}

/// The span of a pattern's tree.
pub open spec fn pat_span(p: PatV) -> Span {
    match p {
        PatV::Wild(s) => s,
        PatV::Name(_, s) => s,
        PatV::Variant(_, _, s) => s,
    }
}

/// The smallest span covering both.
pub open spec fn merge_t(a: Span, b: Span) -> Span {
    Span {
        start: if a.start <= b.start { a.start } else { b.start },
        end: if a.end >= b.end { a.end } else { b.end },
    }
}

// --- Tokens -----------------------------------------------------------------

/// The span of the token at `pos` (that of the last token past the end).
pub open spec fn span_at(toks: Seq<Token>, pos: int) -> Span {
    if 0 <= pos < toks.len() {
        toks[pos].span
    } else {
        toks[toks.len() - 1].span
    }
}

/// How a token kind is named in a message.
pub open spec fn describe_t(k: TokenKind) -> Seq<char> {
    match k {
        TokenKind::Int(_) => "an integer literal"@,
        TokenKind::Text(_) => "a text literal"@,
        TokenKind::Ident(_) => "an identifier"@,
        TokenKind::Keyword(_) => "a keyword"@,
        TokenKind::Eof => "end of input"@,
        _ => "`"@ + symbol_t(k) + "`"@,
    }
}

/// How an operator or delimiter is written.
pub open spec fn symbol_t(k: TokenKind) -> Seq<char> {
    match k {
        TokenKind::Plus => "+"@,
        TokenKind::Minus => "-"@,
        TokenKind::Star => "*"@,
        TokenKind::Slash => "/"@,
        TokenKind::Percent => "%"@,
        TokenKind::EqEq => "=="@,
        TokenKind::NotEq => "!="@,
        TokenKind::Lt => "<"@,
        TokenKind::LtEq => "<="@,
        TokenKind::Gt => ">"@,
        TokenKind::GtEq => ">="@,
        TokenKind::Eq => "="@,
        TokenKind::Bang => "!"@,
        TokenKind::AmpAmp => "&&"@,
        TokenKind::PipePipe => "||"@,
        TokenKind::Arrow => "->"@,
        TokenKind::FatArrow => "=>"@,
        TokenKind::Pipe => "|"@,
        TokenKind::Dot => "."@,
        TokenKind::LParen => "("@,
        TokenKind::RParen => ")"@,
        TokenKind::LBrace => "{"@,
        TokenKind::RBrace => "}"@,
        TokenKind::Comma => ","@,
        TokenKind::Colon => ":"@,
        TokenKind::Semicolon => ";"@,
        _ => "token"@,
    }
}

/// "expected `what`, found <the token at `pos`>" (`P0001`).
pub open spec fn expected_t(toks: Seq<Token>, pos: int, what: Seq<char>) -> PDiag {
    ("P0001"@, span_at(toks, pos), "expected "@ + what + ", found "@ + describe_t(kind_at(toks, pos)))
}

/// A token of the category of `want` at `pos`: its span and the position
/// after it.
pub open spec fn expect_t(toks: Seq<Token>, pos: int, want: TokenKind, what: Seq<char>) -> Result<(Span, int), PDiag> {
    if crate::parser::same_kind(kind_at(toks, pos), want) {
        Ok((toks[pos].span, pos + 1))
    } else {
        Err(expected_t(toks, pos, what))
    }
}

/// An identifier at `pos`: its text, span and the position after it.
pub open spec fn ident_t(toks: Seq<Token>, pos: int, what: Seq<char>) -> Result<(Seq<char>, Span, int), PDiag> {
    match kind_at(toks, pos) {
        TokenKind::Ident(name) => Ok((name@, toks[pos].span, pos + 1)),
        _ => Err(expected_t(toks, pos, what)),
    }
}

/// A placeholder diagnostic for a rule that read no token (the parser never
/// gets there).
pub open spec fn stuck(toks: Seq<Token>, pos: int) -> PDiag {
    ("P0002"@, span_at(toks, pos), Seq::empty())
}

// --- Types ------------------------------------------------------------------

/// A type: `Name`, `Name<T, ...>`, or `fn(P, ...) -> R`.
pub open spec fn type_t(toks: Seq<Token>, pos: int) -> Result<(TexV, int), PDiag>
    decreases toks.len() - pos, 0int,
{
    if pos < 0 || pos > toks.len() {
        Err(stuck(toks, pos))
    } else if kind_at(toks, pos) == TokenKind::Keyword(Keyword::Fn) {
        let start = toks[pos].span;
        match expect_t(toks, pos + 1, TokenKind::LParen, "`(` after `fn` in a function type"@) {
            Err(d) => Err(d),
            Ok((_, p)) => {
                let la = if crate::parser::same_kind(kind_at(toks, p), TokenKind::RParen) {
                    Ok((Seq::<TexV>::empty(), p))
                } else {
                    types_t(toks, p)
                };
                match la {
                    Err(d) => Err(d),
                    Ok((args, p1)) => if p1 < p {
                        Err(stuck(toks, p1))
                    } else {
                        match expect_t(toks, p1, TokenKind::RParen, "`)` to close the function type's parameters"@) {
                            Err(d) => Err(d),
                            Ok((_, p2)) => match expect_t(toks, p2, TokenKind::Arrow, "`->` and a return type in a function type"@) {
                                Err(d) => Err(d),
                                Ok((_, p3)) => match type_t(toks, p3) {
                                    Err(d) => Err(d),
                                    Ok((ret, p4)) => Ok((TexV { name: "fn"@, args: args.push(ret), span: merge_t(start, ret.span) }, p4)),
                                },
                            },
                        }
                    },
                }
            },
        }
    } else {
        match ident_t(toks, pos, "a type name"@) {
            Err(d) => Err(d),
            Ok((name, span, p)) => if crate::parser::same_kind(kind_at(toks, p), TokenKind::Lt) {
                match types_t(toks, p + 1) {
                    Err(d) => Err(d),
                    Ok((args, q)) => if q <= p {
                        Err(stuck(toks, q))
                    } else {
                        match expect_t(toks, q, TokenKind::Gt, "`>` to close the type arguments"@) {
                            Err(d) => Err(d),
                            Ok((e, q2)) => Ok((TexV { name, args, span: merge_t(span, e) }, q2)),
                        }
                    },
                }
            } else {
                Ok((TexV { name, args: Seq::empty(), span: merge_t(span, span) }, p))
            },
        }
    }
}

/// A comma-separated list of types, at least one.
pub open spec fn types_t(toks: Seq<Token>, pos: int) -> Result<(Seq<TexV>, int), PDiag>
    decreases toks.len() - pos, 1int,
{
    if pos < 0 || pos > toks.len() {
        Err(stuck(toks, pos))
    } else {
        match type_t(toks, pos) {
            Err(d) => Err(d),
            Ok((t, q)) => if q <= pos || q > toks.len() {
                Err(stuck(toks, q))
            } else if crate::parser::same_kind(kind_at(toks, q), TokenKind::Comma) {
                match types_t(toks, q + 1) {
                    Err(d) => Err(d),
                    Ok((ts, r)) => Ok((seq![t] + ts, r)),
                }
            } else {
                Ok((seq![t], q))
            },
        }
    }
}

// --- Patterns ---------------------------------------------------------------

/// A pattern: `_`, a name, or `Variant(p, ...)`.
pub open spec fn pattern_t(toks: Seq<Token>, pos: int) -> Result<(PatV, int), PDiag>
    decreases toks.len() - pos, 0int,
{
    if pos < 0 || pos > toks.len() {
        Err(stuck(toks, pos))
    } else {
        match ident_t(toks, pos, "a pattern"@) {
            Err(d) => Err(d),
            Ok((name, span, p)) => if name == "_"@ {
                Ok((PatV::Wild(span), p))
            } else if !crate::parser::same_kind(kind_at(toks, p), TokenKind::LParen) {
                Ok((PatV::Name(name, span), p))
            } else {
                let la = if crate::parser::same_kind(kind_at(toks, p + 1), TokenKind::RParen) {
                    Ok((Seq::<PatV>::empty(), p + 1))
                } else {
                    patterns_t(toks, p + 1)
                };
                match la {
                    Err(d) => Err(d),
                    Ok((args, q)) => match expect_t(toks, q, TokenKind::RParen, "`)` to close the pattern"@) {
                        Err(d) => Err(d),
                        Ok((end, q2)) => Ok((PatV::Variant(name, args, merge_t(span, end)), q2)),
                    },
                }
            },
        }
    }
}

/// A comma-separated list of patterns, at least one.
pub open spec fn patterns_t(toks: Seq<Token>, pos: int) -> Result<(Seq<PatV>, int), PDiag>
    decreases toks.len() - pos, 1int,
{
    if pos < 0 || pos > toks.len() {
        Err(stuck(toks, pos))
    } else {
        match pattern_t(toks, pos) {
            Err(d) => Err(d),
            Ok((t, q)) => if q <= pos || q > toks.len() {
                Err(stuck(toks, q))
            } else if crate::parser::same_kind(kind_at(toks, q), TokenKind::Comma) {
                match patterns_t(toks, q + 1) {
                    Err(d) => Err(d),
                    Ok((ts, r)) => Ok((seq![t] + ts, r)),
                }
            } else {
                Ok((seq![t], q))
            },
        }
    }
}


// --- Expressions ------------------------------------------------------------

/// Explicit type arguments `<T, ...>` directly followed by `(`: the types
/// and the position of the `(`.
pub open spec fn type_args_t(toks: Seq<Token>, pos: int) -> Option<(Seq<TexV>, int)> {
    if !crate::parser::same_kind(kind_at(toks, pos), TokenKind::Lt) {
        None
    } else {
        match type_list_opt(toks, pos + 1) {
            None => None,
            Some((args, p)) => if crate::parser::same_kind(kind_at(toks, p), TokenKind::Gt) && crate::parser::same_kind(
                kind_at(toks, p + 1),
                TokenKind::LParen,
            ) {
                Some((args, p + 1))
            } else {
                None
            },
        }
    }
}

/// A comma-separated list of types, or nothing when one does not parse.
pub open spec fn type_list_opt(toks: Seq<Token>, pos: int) -> Option<(Seq<TexV>, int)>
    decreases toks.len() - pos,
{
    if pos < 0 || pos > toks.len() {
        None
    } else {
        match type_t(toks, pos) {
            Err(_) => None,
            Ok((t, q)) => if q <= pos || q > toks.len() {
                None
            } else if crate::parser::same_kind(kind_at(toks, q), TokenKind::Comma) {
                match type_list_opt(toks, q + 1) {
                    None => None,
                    Some((ts, r)) => Some((seq![t] + ts, r)),
                }
            } else {
                Some((seq![t], q))
            },
        }
    }
}

/// Operators whose binding power is at least `min`, Pratt style: a unary
/// expression, then each operator in turn with its right operand read at one
/// more than its power, so equal powers associate to the left.
pub open spec fn bp_t(toks: Seq<Token>, pos: int, min: int) -> Result<(ExprV, int), PDiag>
    decreases toks.len() - pos, 3int,
{
    if pos < 0 || pos > toks.len() {
        Err(stuck(toks, pos))
    } else {
        match unary_t(toks, pos) {
            Err(d) => Err(d),
            Ok((lhs, p)) => if p <= pos || p > toks.len() {
                Err(stuck(toks, p))
            } else {
                bp_loop_t(toks, lhs, p, min)
            },
        }
    }
}

/// The operators after a left operand `lhs` read up to `p`.
pub open spec fn bp_loop_t(toks: Seq<Token>, lhs: ExprV, p: int, min: int) -> Result<(ExprV, int), PDiag>
    decreases toks.len() - p, 4int,
{
    if p < 0 || p > toks.len() {
        Err(stuck(toks, p))
    } else {
        match spec_binding_power(kind_at(toks, p)) {
            Some((op, bp)) => if (bp as int) < min {
                Ok((lhs, p))
            } else {
                match bp_t(toks, p + 1, bp + 1) {
                    Err(d) => Err(d),
                    Ok((rhs, q)) => if q <= p || q > toks.len() {
                        Err(stuck(toks, q))
                    } else {
                        bp_loop_t(toks, ExprV::Binary(op, Box::new(lhs), Box::new(rhs), merge_t(span_of(lhs), span_of(rhs))), q, min)
                    },
                }
            },
            None => Ok((lhs, p)),
        }
    }
}

/// A prefix `-` or `!` applied to a unary expression, or a postfix one.
pub open spec fn unary_t(toks: Seq<Token>, pos: int) -> Result<(ExprV, int), PDiag>
    decreases toks.len() - pos, 2int,
{
    if pos < 0 || pos > toks.len() {
        Err(stuck(toks, pos))
    } else {
        let op = match kind_at(toks, pos) {
            TokenKind::Minus => Some(UnaryOp::Neg),
            TokenKind::Bang => Some(UnaryOp::Not),
            _ => None,
        };
        match op {
            Some(op) => match unary_t(toks, pos + 1) {
                Err(d) => Err(d),
                Ok((operand, q)) => Ok((ExprV::Unary(op, Box::new(operand), merge_t(toks[pos].span, span_of(operand))), q)),
            },
            None => postfix_t(toks, pos),
        }
    }
}

/// A primary expression and its member and call suffixes.
pub open spec fn postfix_t(toks: Seq<Token>, pos: int) -> Result<(ExprV, int), PDiag>
    decreases toks.len() - pos, 1int,
{
    if pos < 0 || pos > toks.len() {
        Err(stuck(toks, pos))
    } else {
        match primary_t(toks, pos) {
            Err(d) => Err(d),
            Ok((e, p)) => if p <= pos || p > toks.len() {
                Err(stuck(toks, p))
            } else {
                postfix_loop_t(toks, e, p)
            },
        }
    }
}

/// The suffixes after `e` read up to `p`: `.name`, or a call with optional
/// explicit type arguments (after a bare name).
pub open spec fn postfix_loop_t(toks: Seq<Token>, e: ExprV, p: int) -> Result<(ExprV, int), PDiag>
    decreases toks.len() - p, 5int,
{
    if p < 0 || p > toks.len() {
        Err(stuck(toks, p))
    } else if crate::parser::same_kind(kind_at(toks, p), TokenKind::Dot) {
        match ident_t(toks, p + 1, "a member name after `.`"@) {
            Err(d) => Err(d),
            Ok((name, nspan, q)) => postfix_loop_t(toks, ExprV::Member(Box::new(e), name, merge_t(span_of(e), nspan)), q),
        }
    } else {
        let (tas, at) = if e is Ident {
            match type_args_t(toks, p) {
                Some((tas, q)) => (tas, q),
                None => (Seq::<TexV>::empty(), p),
            }
        } else {
            (Seq::<TexV>::empty(), p)
        };
        if at < p || !crate::parser::same_kind(kind_at(toks, at), TokenKind::LParen) {
            Ok((e, p))
        } else {
            let q = at + 1;
            let la = if crate::parser::same_kind(kind_at(toks, q), TokenKind::RParen) {
                Ok((Seq::<ExprV>::empty(), q))
            } else {
                call_args_t(toks, q)
            };
            match la {
                Err(d) => Err(d),
                Ok((args, q2)) => if q2 < q {
                    Err(stuck(toks, q2))
                } else {
                    match expect_t(toks, q2, TokenKind::RParen, "`)` to close the call arguments"@) {
                        Err(d) => Err(d),
                        Ok((end, q3)) => postfix_loop_t(toks, ExprV::Call(Box::new(e), tas, args, merge_t(span_of(e), end)), q3),
                    }
                },
            }
        }
    }
}

/// Comma-separated call arguments, at least one.
pub open spec fn call_args_t(toks: Seq<Token>, pos: int) -> Result<(Seq<ExprV>, int), PDiag>
    decreases toks.len() - pos, 6int,
{
    if pos < 0 || pos > toks.len() {
        Err(stuck(toks, pos))
    } else {
        match bp_t(toks, pos, 0) {
            Err(d) => Err(d),
            Ok((a, q)) => if q <= pos || q > toks.len() {
                Err(stuck(toks, q))
            } else if crate::parser::same_kind(kind_at(toks, q), TokenKind::Comma) {
                match call_args_t(toks, q + 1) {
                    Err(d) => Err(d),
                    Ok((rest, r)) => Ok((seq![a] + rest, r)),
                }
            } else {
                Ok((seq![a], q))
            },
        }
    }
}

/// A literal, a name, a parenthesized expression, or a `match`.
pub open spec fn primary_t(toks: Seq<Token>, pos: int) -> Result<(ExprV, int), PDiag>
    decreases toks.len() - pos, 0int,
{
    if pos < 0 || pos > toks.len() {
        Err(stuck(toks, pos))
    } else {
        let span = span_at(toks, pos);
        match kind_at(toks, pos) {
            TokenKind::Int(v) => Ok((ExprV::Lit(LitV::Int(v), span), pos + 1)),
            TokenKind::Text(s) => Ok((ExprV::Lit(LitV::Text(s@), span), pos + 1)),
            TokenKind::Keyword(Keyword::True) => Ok((ExprV::Lit(LitV::Bool(true), span), pos + 1)),
            TokenKind::Keyword(Keyword::False) => Ok((ExprV::Lit(LitV::Bool(false), span), pos + 1)),
            TokenKind::Ident(name) => Ok((ExprV::Ident(name@, span), pos + 1)),
            TokenKind::LParen => match bp_t(toks, pos + 1, 0) {
                Err(d) => Err(d),
                Ok((inner, q)) => match expect_t(toks, q, TokenKind::RParen, "`)` to close the group"@) {
                    Err(d) => Err(d),
                    Ok((_, q2)) => Ok((inner, q2)),
                },
            },
            TokenKind::Keyword(Keyword::Match) => match bp_t(toks, pos + 1, 0) {
                Err(d) => Err(d),
                Ok((scr, q)) => if q <= pos {
                    Err(stuck(toks, q))
                } else {
                    match expect_t(toks, q, TokenKind::LBrace, "`{` to open the match arms"@) {
                        Err(d) => Err(d),
                        Ok((_, p)) => match arms_t(toks, p) {
                            Err(d) => Err(d),
                            Ok((arms, p3)) => match expect_t(toks, p3, TokenKind::RBrace, "`}` to close the match"@) {
                                Err(d) => Err(d),
                                Ok((end, p4)) => Ok((ExprV::Match(Box::new(scr), arms, merge_t(span, end)), p4)),
                            },
                        },
                    }
                },
            },
            other => Err(("P0002"@, span, "expected an expression, found "@ + describe_t(other))),
        }
    }
}

/// The arms of a `match` up to its closing `}` (or the end): each a pattern,
/// `=>` and an expression, separated by commas.
pub open spec fn arms_t(toks: Seq<Token>, p: int) -> Result<(Seq<ArmV>, int), PDiag>
    decreases toks.len() - p, 7int,
{
    if p < 0 || p > toks.len() {
        Err(stuck(toks, p))
    } else if crate::parser::same_kind(kind_at(toks, p), TokenKind::RBrace) || kind_at(toks, p) is Eof {
        Ok((Seq::empty(), p))
    } else {
        match pattern_t(toks, p) {
            Err(d) => Err(d),
            Ok((pat, p1)) => match expect_t(toks, p1, TokenKind::FatArrow, "`=>` after the match pattern"@) {
                Err(d) => Err(d),
                Ok((_, p2)) => if p2 <= p {
                    Err(stuck(toks, p2))
                } else {
                    match bp_t(toks, p2, 0) {
                        Err(d) => Err(d),
                        Ok((body, p3)) => if p3 <= p2 || p3 > toks.len() {
                            Err(stuck(toks, p3))
                        } else {
                            let arm = ArmV { pattern: pat, body, span: merge_t(pat_span(pat), span_of(body)) };
                            if crate::parser::same_kind(kind_at(toks, p3), TokenKind::Comma) {
                                match arms_t(toks, p3 + 1) {
                                    Err(d) => Err(d),
                                    Ok((rest, r)) => Ok((seq![arm] + rest, r)),
                                }
                            } else {
                                Ok((seq![arm], p3))
                            }
                        },
                    }
                },
            },
        }
    }
}


// --- Results of the exec rules ------------------------------------------

/// A parse of a type gave what the grammar gives.
pub open spec fn tex_res(r: Result<(TypeExpr, usize), crate::diagnostic::Diagnostic>, s: Result<(TexV, int), PDiag>) -> bool {
    match (r, s) {
        (Ok((t, q)), Ok((v, q2))) => tex_view(t) == v && q as int == q2,
        (Err(d), Err(e)) => d@ == e,
        _ => false,
    }
}

/// A parse of a pattern gave what the grammar gives.
pub open spec fn pat_res(r: Result<(Pattern, usize), crate::diagnostic::Diagnostic>, s: Result<(PatV, int), PDiag>) -> bool {
    match (r, s) {
        (Ok((t, q)), Ok((v, q2))) => pat_view(t) == v && q as int == q2,
        (Err(d), Err(e)) => d@ == e,
        _ => false,
    }
}

/// A parse of an expression gave what the grammar gives.
pub open spec fn expr_res(r: Result<(Expr, usize), crate::diagnostic::Diagnostic>, s: Result<(ExprV, int), PDiag>) -> bool {
    match (r, s) {
        (Ok((t, q)), Ok((v, q2))) => expr_view(t) == v && q as int == q2,
        (Err(d), Err(e)) => d@ == e,
        _ => false,
    }
}

/// `tex_views` keeps positions.
pub proof fn lemma_tex_views(ts: Seq<TypeExpr>)
    ensures
        tex_views(ts).len() == ts.len(),
        forall|i: int| 0 <= i < ts.len() ==> #[trigger] tex_views(ts)[i] == tex_view(ts[i]),
    decreases ts.len(),
{
    if ts.len() > 0 {
        let pre = ts.subrange(0, ts.len() - 1);
        lemma_tex_views(pre);
        assert forall|i: int| 0 <= i < ts.len() implies #[trigger] tex_views(ts)[i] == tex_view(ts[i]) by {
            if i < ts.len() - 1 {
                assert(tex_views(ts)[i] == tex_views(pre)[i]);
                assert(pre[i] == ts[i]);
            }
        }
    }
}

/// Pushing a written type pushes its plain data.
pub proof fn lemma_tex_views_push(ts: Seq<TypeExpr>, t: TypeExpr)
    ensures
        tex_views(ts.push(t)) == tex_views(ts).push(tex_view(t)),
{
    assert(ts.push(t).subrange(0, ts.len() as int) =~= ts);
}

/// Pushing a pattern pushes its plain data.
pub proof fn lemma_pat_views_push(ps: Seq<Pattern>, p: Pattern)
    ensures
        pat_views(ps.push(p)) == pat_views(ps).push(pat_view(p)),
{
    assert(ps.push(p).subrange(0, ps.len() as int) =~= ps);
}

/// Pushing an expression pushes its plain data.
pub proof fn lemma_expr_views_push(es: Seq<Expr>, e: Expr)
    ensures
        expr_views(es.push(e)) == expr_views(es).push(expr_view(e)),
{
    assert(es.push(e).subrange(0, es.len() as int) =~= es);
}

/// Pushing an arm pushes its plain data.
pub proof fn lemma_arm_views_push(arms: Seq<MatchArm>, a: MatchArm)
    ensures
        arm_views(arms.push(a)) == arm_views(arms).push(ArmV { pattern: pat_view(a.pattern), body: expr_view(a.body), span: a.span }),
{
    assert(arms.push(a).subrange(0, arms.len() as int) =~= arms);
}

// --- Statements and items: plain data -----------------------------------

/// A statement as plain data.
pub enum StmtV {
    Let(Seq<char>, bool, Option<TexV>, ExprV, Span),
    Expr(ExprV),
    Return(Option<ExprV>, Span),
    If(ExprV, BlockV, Option<BlockV>, Span),
    Check(ExprV, Blame, Span),
}

/// A block as plain data.
pub struct BlockV {
    pub stmts: Seq<StmtV>,
    pub span: Span,
}

/// A parameter as plain data.
pub struct ParamV {
    pub name: Seq<char>,
    pub ty: TexV,
    pub span: Span,
}

/// A contract clause as plain data.
pub struct ContractV {
    pub predicate: ExprV,
    pub span: Span,
}

/// A signature as plain data; effects are (name, span).
pub struct SignatureV {
    pub name: Seq<char>,
    pub params: Seq<ParamV>,
    pub return_type: Option<TexV>,
    pub effects: Seq<(Seq<char>, Span)>,
    pub effects_span: Option<Span>,
    pub requires: Seq<ContractV>,
    pub ensures: Seq<ContractV>,
    pub span: Span,
}

/// A function as plain data.
pub struct FunctionV {
    pub exported: bool,
    pub signature: SignatureV,
    pub body: BlockV,
    pub span: Span,
}

/// A variant as plain data.
pub struct VariantV {
    pub name: Seq<char>,
    pub fields: Seq<TexV>,
    pub span: Span,
}

/// A sum-type declaration as plain data.
pub struct TypeDeclV {
    pub exported: bool,
    pub name: Seq<char>,
    pub generics: Seq<Seq<char>>,
    pub variants: Seq<VariantV>,
    pub span: Span,
}

/// An item as plain data.
pub enum ItemV {
    Function(FunctionV),
    Type(TypeDeclV),
}

/// A module as plain data: its imports (name, span) and items.
pub struct ModuleV {
    pub imports: Seq<(Seq<char>, Span)>,
    pub items: Seq<ItemV>,
}

pub open spec fn opt_tex_view(t: Option<TypeExpr>) -> Option<TexV> {
    match t {
        Some(x) => Some(tex_view(x)),
        None => None,
    }
}

pub open spec fn stmt_view(s: Stmt) -> StmtV
    decreases s, 1int,
{
    match s {
        Stmt::Let { name, mutable, ty, value, span } => StmtV::Let(name@, mutable, opt_tex_view(ty), expr_view(value), span),
        Stmt::Expr(e) => StmtV::Expr(expr_view(e)),
        Stmt::Return { value, span } => StmtV::Return(
            match value {
                Some(e) => Some(expr_view(e)),
                None => None,
            },
            span,
        ),
        Stmt::If { cond, then_block, else_block, span } => StmtV::If(
            expr_view(cond),
            BlockV { stmts: stmt_views(then_block.stmts@), span: then_block.span },
            match else_block {
                Some(b) => Some(BlockV { stmts: stmt_views(b.stmts@), span: b.span }),
                None => None,
            },
            span,
        ),
        Stmt::Check { predicate, blame, span } => StmtV::Check(expr_view(predicate), blame, span),
    }
}

pub open spec fn stmt_views(ss: Seq<Stmt>) -> Seq<StmtV>
    decreases ss, 0int,
{
    if ss.len() == 0 {
        Seq::empty()
    } else {
        stmt_views(ss.subrange(0, ss.len() - 1)).push(stmt_view(ss[ss.len() - 1]))
    }
}

pub open spec fn block_view(b: Block) -> BlockV {
    BlockV { stmts: stmt_views(b.stmts@), span: b.span }
}

pub open spec fn param_view(p: Param) -> ParamV {
    ParamV { name: p.name@, ty: tex_view(p.ty), span: p.span }
}

pub open spec fn contract_view(c: Contract) -> ContractV {
    ContractV { predicate: expr_view(c.predicate), span: c.span }
}

pub open spec fn function_view(f: Function) -> FunctionV {
    FunctionV {
        exported: f.exported,
        signature: SignatureV {
            name: f.signature.name@,
            params: f.signature.params@.map_values(|p: Param| param_view(p)),
            return_type: opt_tex_view(f.signature.return_type),
            effects: f.signature.effects.effects@.map_values(|e: Effect| (e.name@, e.span)),
            effects_span: f.signature.effects.span,
            requires: f.signature.requires@.map_values(|c: Contract| contract_view(c)),
            ensures: f.signature.ensures@.map_values(|c: Contract| contract_view(c)),
            span: f.signature.span,
        },
        body: block_view(f.body),
        span: f.span,
    }
}

pub open spec fn variant_view(v: Variant) -> VariantV {
    VariantV { name: v.name@, fields: tex_views(v.fields@), span: v.span }
}

pub open spec fn decl_view(d: TypeDecl) -> TypeDeclV {
    TypeDeclV {
        exported: d.exported,
        name: d.name@,
        generics: d.generics@.map_values(|g: String| g@),
        variants: d.variants@.map_values(|v: Variant| variant_view(v)),
        span: d.span,
    }
}

pub open spec fn item_view(i: Item) -> ItemV {
    match i {
        Item::Function(f) => ItemV::Function(function_view(f)),
        Item::Type(d) => ItemV::Type(decl_view(d)),
    }
}

pub open spec fn module_view(m: Module) -> ModuleV {
    ModuleV {
        imports: m.imports@.map_values(|i: Import| (i.name@, i.span)),
        items: m.items@.map_values(|i: Item| item_view(i)),
    }
}

// --- Statements -------------------------------------------------------------

/// A block: `{`, statements up to `}` (or the end), `}`.
pub open spec fn block_g(toks: Seq<Token>, pos: int) -> Result<(BlockV, int), PDiag>
    decreases toks.len() - pos, 2int,
{
    if pos < 0 || pos > toks.len() {
        Err(stuck(toks, pos))
    } else {
        match expect_t(toks, pos, TokenKind::LBrace, "`{`"@) {
            Err(d) => Err(d),
            Ok((start, p)) => match stmts_g(toks, p) {
                Err(d) => Err(d),
                Ok((ss, q)) => match expect_t(toks, q, TokenKind::RBrace, "`}`"@) {
                    Err(d) => Err(d),
                    Ok((end, q2)) => Ok((BlockV { stmts: ss, span: merge_t(start, end) }, q2)),
                },
            },
        }
    }
}

/// Statements up to a `}` or the end.
pub open spec fn stmts_g(toks: Seq<Token>, p: int) -> Result<(Seq<StmtV>, int), PDiag>
    decreases toks.len() - p, 3int,
{
    if p < 0 || p > toks.len() {
        Err(stuck(toks, p))
    } else if crate::parser::same_kind(kind_at(toks, p), TokenKind::RBrace) || kind_at(toks, p) is Eof {
        Ok((Seq::empty(), p))
    } else {
        match stmt_g(toks, p) {
            Err(d) => Err(d),
            Ok((st, q)) => if q <= p || q > toks.len() {
                Err(stuck(toks, q))
            } else {
                match stmts_g(toks, q) {
                    Err(d) => Err(d),
                    Ok((rest, r)) => Ok((seq![st] + rest, r)),
                }
            },
        }
    }
}

/// A statement: `let`, `return`, `if`, or an expression and `;`.
pub open spec fn stmt_g(toks: Seq<Token>, pos: int) -> Result<(StmtV, int), PDiag>
    decreases toks.len() - pos, 1int,
{
    if pos < 0 || pos > toks.len() {
        Err(stuck(toks, pos))
    } else {
        match kind_at(toks, pos) {
            TokenKind::Keyword(Keyword::Let) => let_g(toks, pos),
            TokenKind::Keyword(Keyword::Return) => return_g(toks, pos),
            TokenKind::Keyword(Keyword::If) => if_g(toks, pos),
            _ => match bp_t(toks, pos, 0) {
                Err(d) => Err(d),
                Ok((e, q)) => match expect_t(toks, q, TokenKind::Semicolon, "`;` after the expression"@) {
                    Err(d) => Err(d),
                    Ok((_, q2)) => Ok((StmtV::Expr(e), q2)),
                },
            },
        }
    }
}

/// `if c { .. }`, with `else { .. }` or `else if ..` (an `else if` is a
/// block holding the nested `if`, spanning its tokens).
pub open spec fn if_g(toks: Seq<Token>, pos: int) -> Result<(StmtV, int), PDiag>
    decreases toks.len() - pos, 0int,
{
    if pos < 0 || pos >= toks.len() {
        Err(stuck(toks, pos))
    } else {
        let start = toks[pos].span;
        match bp_t(toks, pos + 1, 0) {
            Err(d) => Err(d),
            Ok((cond, p)) => if p <= pos || p > toks.len() {
                Err(stuck(toks, p))
            } else {
                match block_g(toks, p) {
                    Err(d) => Err(d),
                    Ok((then_b, p2)) => if p2 <= pos {
                        Err(stuck(toks, p2))
                    } else if crate::parser::same_kind(kind_at(toks, p2), TokenKind::Keyword(Keyword::Else)) {
                        if crate::parser::same_kind(kind_at(toks, p2 + 1), TokenKind::Keyword(Keyword::If)) {
                            let nested_start = toks[p2 + 1].span;
                            match if_g(toks, p2 + 1) {
                                Err(d) => Err(d),
                                Ok((nested, q3)) => {
                                    let nested_end = if q3 > 0 && q3 - 1 < toks.len() {
                                        toks[q3 - 1].span
                                    } else {
                                        nested_start
                                    };
                                    let nspan = if nested_start.start <= nested_end.end {
                                        Span { start: nested_start.start, end: nested_end.end }
                                    } else {
                                        nested_start
                                    };
                                    Ok((StmtV::If(cond, then_b, Some(BlockV { stmts: seq![nested], span: nspan }), merge_t(start, nspan)), q3))
                                },
                            }
                        } else {
                            match block_g(toks, p2 + 1) {
                                Err(d) => Err(d),
                                Ok((b, q3)) => Ok((StmtV::If(cond, then_b, Some(b), merge_t(start, b.span)), q3)),
                            }
                        }
                    } else {
                        Ok((StmtV::If(cond, then_b, None, merge_t(start, then_b.span)), p2))
                    },
                }
            },
        }
    }
}

/// `let [mut] name [: T] = value;`
pub open spec fn let_g(toks: Seq<Token>, pos: int) -> Result<(StmtV, int), PDiag> {
    if pos < 0 || pos >= toks.len() {
        Err(stuck(toks, pos))
    } else {
        let start = toks[pos].span;
        let mutable = crate::parser::same_kind(kind_at(toks, pos + 1), TokenKind::Keyword(Keyword::Mut));
        let p = if mutable { pos + 2 } else { pos + 1 };
        match ident_t(toks, p, "a binding name"@) {
            Err(d) => Err(d),
            Ok((name, _, p2)) => {
                let ty = if crate::parser::same_kind(kind_at(toks, p2), TokenKind::Colon) {
                    match type_t(toks, p2 + 1) {
                        Err(d) => Err(d),
                        Ok((t, q)) => Ok((Some(t), q)),
                    }
                } else {
                    Ok((None, p2))
                };
                match ty {
                    Err(d) => Err(d),
                    Ok((ty, p3)) => match expect_t(toks, p3, TokenKind::Eq, "`=` in the `let` binding"@) {
                        Err(d) => Err(d),
                        Ok((_, p4)) => match bp_t(toks, p4, 0) {
                            Err(d) => Err(d),
                            Ok((value, p5)) => match expect_t(toks, p5, TokenKind::Semicolon, "`;` after the `let` binding"@) {
                                Err(d) => Err(d),
                                Ok((end, p6)) => Ok((StmtV::Let(name, mutable, ty, value, merge_t(start, end)), p6)),
                            },
                        },
                    },
                }
            },
        }
    }
}

/// `return;` or `return value;`
pub open spec fn return_g(toks: Seq<Token>, pos: int) -> Result<(StmtV, int), PDiag> {
    if pos < 0 || pos >= toks.len() {
        Err(stuck(toks, pos))
    } else {
        let start = toks[pos].span;
        if crate::parser::same_kind(kind_at(toks, pos + 1), TokenKind::Semicolon) {
            Ok((StmtV::Return(None, merge_t(start, toks[pos + 1].span)), pos + 2))
        } else {
            match bp_t(toks, pos + 1, 0) {
                Err(d) => Err(d),
                Ok((value, p)) => match expect_t(toks, p, TokenKind::Semicolon, "`;` after the `return` value"@) {
                    Err(d) => Err(d),
                    Ok((end, p2)) => Ok((StmtV::Return(Some(value), merge_t(start, end)), p2)),
                },
            }
        }
    }
}


/// A parse of a statement gave what the grammar gives.
pub open spec fn stmt_res(r: Result<(Stmt, usize), crate::diagnostic::Diagnostic>, s: Result<(StmtV, int), PDiag>) -> bool {
    match (r, s) {
        (Ok((t, q)), Ok((v, q2))) => stmt_view(t) == v && q as int == q2,
        (Err(d), Err(e)) => d@ == e,
        _ => false,
    }
}

/// A parse of a block gave what the grammar gives.
pub open spec fn block_res(r: Result<(Block, usize), crate::diagnostic::Diagnostic>, s: Result<(BlockV, int), PDiag>) -> bool {
    match (r, s) {
        (Ok((t, q)), Ok((v, q2))) => block_view(t) == v && q as int == q2,
        (Err(d), Err(e)) => d@ == e,
        _ => false,
    }
}

/// Pushing a statement pushes its plain data.
pub proof fn lemma_stmt_views_push(ss: Seq<Stmt>, st: Stmt)
    ensures
        stmt_views(ss.push(st)) == stmt_views(ss).push(stmt_view(st)),
{
    assert(ss.push(st).subrange(0, ss.len() as int) =~= ss);
}


// --- Items ------------------------------------------------------------------

/// The identifier `w` is at `p` (the contextual words `type`, `import` and
/// `export`).
pub open spec fn word_at(toks: Seq<Token>, p: int, w: Seq<char>) -> bool {
    kind_at(toks, p) matches TokenKind::Ident(n) && n@ == w
}

/// Comma-separated names up to `close` (none when `close` comes first).
pub open spec fn names_g(toks: Seq<Token>, pos: int, close: TokenKind, what: Seq<char>) -> Result<(Seq<(Seq<char>, Span)>, int), PDiag> {
    if crate::parser::same_kind(kind_at(toks, pos), close) {
        Ok((Seq::empty(), pos))
    } else {
        names_list_g(toks, pos, what)
    }
}

/// Comma-separated names, at least one.
pub open spec fn names_list_g(toks: Seq<Token>, p: int, what: Seq<char>) -> Result<(Seq<(Seq<char>, Span)>, int), PDiag>
    decreases toks.len() - p,
{
    if p < 0 || p > toks.len() {
        Err(stuck(toks, p))
    } else {
        match ident_t(toks, p, what) {
            Err(d) => Err(d),
            Ok((n, sp, q)) => if crate::parser::same_kind(kind_at(toks, q), TokenKind::Comma) {
                match names_list_g(toks, q + 1, what) {
                    Err(d) => Err(d),
                    Ok((rest, r)) => Ok((seq![(n, sp)] + rest, r)),
                }
            } else {
                Ok((seq![(n, sp)], q))
            },
        }
    }
}

/// Comma-separated parameters `name: T`, at least one.
pub open spec fn params_g(toks: Seq<Token>, p: int) -> Result<(Seq<ParamV>, int), PDiag>
    decreases toks.len() - p,
{
    if p < 0 || p > toks.len() {
        Err(stuck(toks, p))
    } else {
        match ident_t(toks, p, "a parameter name"@) {
            Err(d) => Err(d),
            Ok((pname, pspan, q)) => match expect_t(toks, q, TokenKind::Colon, "`:`"@) {
                Err(d) => Err(d),
                Ok((_, q2)) => match type_t(toks, q2) {
                    Err(d) => Err(d),
                    Ok((ty, q3)) => if q3 <= p || q3 > toks.len() {
                        Err(stuck(toks, q3))
                    } else {
                        let prm = ParamV { name: pname, ty, span: merge_t(pspan, ty.span) };
                        if crate::parser::same_kind(kind_at(toks, q3), TokenKind::Comma) {
                            match params_g(toks, q3 + 1) {
                                Err(d) => Err(d),
                                Ok((rest, r)) => Ok((seq![prm] + rest, r)),
                            }
                        } else {
                            Ok((seq![prm], q3))
                        }
                    },
                },
            },
        }
    }
}

/// The clauses of a signature in any order: `uses { .. }` (effects append;
/// the last clause's span is kept), `requires e`, `ensures e`. Gives the
/// effects, the effect clause's span, the preconditions, the
/// postconditions, and where they end.
pub open spec fn clauses_g(toks: Seq<Token>, p: int) -> Result<(Seq<(Seq<char>, Span)>, Option<Span>, Seq<ContractV>, Seq<ContractV>, int), PDiag>
    decreases toks.len() - p,
{
    if p < 0 || p > toks.len() {
        Err(stuck(toks, p))
    } else if crate::parser::same_kind(kind_at(toks, p), TokenKind::Keyword(Keyword::Uses)) {
        let ustart = toks[p].span;
        match expect_t(toks, p + 1, TokenKind::LBrace, "`{` after `uses`"@) {
            Err(d) => Err(d),
            Ok((_, q)) => match names_g(toks, q, TokenKind::RBrace, "an effect name"@) {
                Err(d) => Err(d),
                Ok((names, q2)) => if q2 < q {
                    Err(stuck(toks, q2))
                } else {
                    match expect_t(toks, q2, TokenKind::RBrace, "`}` to close the effect set"@) {
                        Err(d) => Err(d),
                        Ok((uend, q3)) => match clauses_g(toks, q3) {
                            Err(d) => Err(d),
                            Ok((effs, sp, rq, en, r)) => Ok((
                                names + effs,
                                match sp {
                                    Some(x) => Some(x),
                                    None => Some(merge_t(ustart, uend)),
                                },
                                rq,
                                en,
                                r,
                            )),
                        },
                    }
                },
            },
        }
    } else if crate::parser::same_kind(kind_at(toks, p), TokenKind::Keyword(Keyword::Requires)) {
        let cstart = toks[p].span;
        match bp_t(toks, p + 1, 0) {
            Err(d) => Err(d),
            Ok((pred, q)) => if q <= p || q > toks.len() {
                Err(stuck(toks, q))
            } else {
                match clauses_g(toks, q) {
                    Err(d) => Err(d),
                    Ok((effs, sp, rq, en, r)) => Ok((effs, sp, seq![ContractV { predicate: pred, span: merge_t(cstart, span_of(pred)) }] + rq, en, r)),
                }
            },
        }
    } else if crate::parser::same_kind(kind_at(toks, p), TokenKind::Keyword(Keyword::Ensures)) {
        let cstart = toks[p].span;
        match bp_t(toks, p + 1, 0) {
            Err(d) => Err(d),
            Ok((pred, q)) => if q <= p || q > toks.len() {
                Err(stuck(toks, q))
            } else {
                match clauses_g(toks, q) {
                    Err(d) => Err(d),
                    Ok((effs, sp, rq, en, r)) => Ok((effs, sp, rq, seq![ContractV { predicate: pred, span: merge_t(cstart, span_of(pred)) }] + en, r)),
                }
            },
        }
    } else {
        Ok((Seq::empty(), None, Seq::empty(), Seq::empty(), p))
    }
}

/// `fn name(params) [-> T] clauses { body }`; the signature spans from `fn`
/// to the token before the body.
pub open spec fn function_g(toks: Seq<Token>, pos: int, exported: bool) -> Result<(FunctionV, int), PDiag> {
    match expect_t(toks, pos, TokenKind::Keyword(Keyword::Fn), "`fn`"@) {
        Err(d) => Err(d),
        Ok((start, p0)) => match ident_t(toks, p0, "a function name"@) {
            Err(d) => Err(d),
            Ok((name, _, p1)) => match expect_t(toks, p1, TokenKind::LParen, "`(`"@) {
                Err(d) => Err(d),
                Ok((_, p)) => {
                    let pr = if crate::parser::same_kind(kind_at(toks, p), TokenKind::RParen) {
                        Ok((Seq::<ParamV>::empty(), p))
                    } else {
                        params_g(toks, p)
                    };
                    match pr {
                        Err(d) => Err(d),
                        Ok((params, pp)) => match expect_t(toks, pp, TokenKind::RParen, "`)`"@) {
                            Err(d) => Err(d),
                            Ok((_, p2)) => {
                                let rt = if crate::parser::same_kind(kind_at(toks, p2), TokenKind::Arrow) {
                                    match type_t(toks, p2 + 1) {
                                        Err(d) => Err(d),
                                        Ok((t, q)) => Ok((Some(t), q)),
                                    }
                                } else {
                                    Ok((None, p2))
                                };
                                match rt {
                                    Err(d) => Err(d),
                                    Ok((ret, p3)) => match clauses_g(toks, p3) {
                                        Err(d) => Err(d),
                                        Ok((effs, esp, rq, en, p4)) => if p4 < 1 || p4 > toks.len() {
                                            Err(stuck(toks, p4))
                                        } else {
                                            let sig_end = toks[p4 - 1].span;
                                            match block_g(toks, p4) {
                                                Err(d) => Err(d),
                                                Ok((body, p5)) => Ok((
                                                    FunctionV {
                                                        exported,
                                                        signature: SignatureV {
                                                            name,
                                                            params,
                                                            return_type: ret,
                                                            effects: effs,
                                                            effects_span: esp,
                                                            requires: rq,
                                                            ensures: en,
                                                            span: if start.start <= sig_end.end {
                                                                Span { start: start.start, end: sig_end.end }
                                                            } else {
                                                                start
                                                            },
                                                        },
                                                        body,
                                                        span: merge_t(start, body.span),
                                                    },
                                                    p5,
                                                )),
                                            }
                                        },
                                    },
                                }
                            },
                        },
                    }
                },
            },
        },
    }
}

/// `|`-separated variants, at least one: `Name` or `Name(T, ...)`.
pub open spec fn variants_g(toks: Seq<Token>, p: int) -> Result<(Seq<VariantV>, int), PDiag>
    decreases toks.len() - p,
{
    if p < 0 || p > toks.len() {
        Err(stuck(toks, p))
    } else {
        match ident_t(toks, p, "a variant name"@) {
            Err(d) => Err(d),
            Ok((vname, vspan, q1)) => {
                let fr = if crate::parser::same_kind(kind_at(toks, q1), TokenKind::LParen) {
                    let lr = if crate::parser::same_kind(kind_at(toks, q1 + 1), TokenKind::RParen) {
                        Ok((Seq::<TexV>::empty(), q1 + 1))
                    } else {
                        types_t(toks, q1 + 1)
                    };
                    match lr {
                        Err(d) => Err(d),
                        Ok((fields, q2)) => match expect_t(toks, q2, TokenKind::RParen, "`)` to close the variant fields"@) {
                            Err(d) => Err(d),
                            Ok((e, q3)) => Ok((fields, e, q3)),
                        },
                    }
                } else {
                    Ok((Seq::<TexV>::empty(), vspan, q1))
                };
                match fr {
                    Err(d) => Err(d),
                    Ok((fields, vend, q)) => if q <= p || q > toks.len() {
                        Err(stuck(toks, q))
                    } else {
                        let v = VariantV { name: vname, fields, span: merge_t(vspan, vend) };
                        if crate::parser::same_kind(kind_at(toks, q), TokenKind::Pipe) {
                            match variants_g(toks, q + 1) {
                                Err(d) => Err(d),
                                Ok((rest, r)) => Ok((seq![v] + rest, r)),
                            }
                        } else {
                            Ok((seq![v], q))
                        }
                    },
                }
            },
        }
    }
}

/// `type Name[<G, ...>] = variants`, from the word `type` at `pos`.
pub open spec fn type_decl_g(toks: Seq<Token>, pos: int, exported: bool) -> Result<(TypeDeclV, int), PDiag> {
    if pos < 0 || pos >= toks.len() {
        Err(stuck(toks, pos))
    } else {
        let start = toks[pos].span;
        match ident_t(toks, pos + 1, "a type name"@) {
            Err(d) => Err(d),
            Ok((name, _, p)) => {
                let gr = if crate::parser::same_kind(kind_at(toks, p), TokenKind::Lt) {
                    match names_g(toks, p + 1, TokenKind::Gt, "a generic parameter name"@) {
                        Err(d) => Err(d),
                        Ok((names, q)) => match expect_t(toks, q, TokenKind::Gt, "`>` to close the generic parameters"@) {
                            Err(d) => Err(d),
                            Ok((_, q2)) => Ok((names.map_values(|x: (Seq<char>, Span)| x.0), q2)),
                        },
                    }
                } else {
                    Ok((Seq::<Seq<char>>::empty(), p))
                };
                match gr {
                    Err(d) => Err(d),
                    Ok((generics, p1)) => match expect_t(toks, p1, TokenKind::Eq, "`=` in the type declaration"@) {
                        Err(d) => Err(d),
                        Ok((_, q)) => match variants_g(toks, q) {
                            Err(d) => Err(d),
                            Ok((vs, p2)) => Ok((
                                TypeDeclV {
                                    exported,
                                    name,
                                    generics,
                                    variants: vs,
                                    span: merge_t(start, if vs.len() > 0 { vs.last().span } else { start }),
                                },
                                p2,
                            )),
                        },
                    },
                }
            },
        }
    }
}

/// An item: `[export] fn ...` or `[export] type ...`.
#[verifier::opaque]
pub open spec fn item_g(toks: Seq<Token>, pos: int) -> Result<(ItemV, int), PDiag> {
    let exported = word_at(toks, pos, "export"@);
    let p = if exported { pos + 1 } else { pos };
    if crate::parser::same_kind(kind_at(toks, p), TokenKind::Keyword(Keyword::Fn)) {
        match function_g(toks, p, exported) {
            Err(d) => Err(d),
            Ok((f, q)) => Ok((ItemV::Function(f), q)),
        }
    } else if word_at(toks, p, "type"@) {
        match type_decl_g(toks, p, exported) {
            Err(d) => Err(d),
            Ok((t, q)) => Ok((ItemV::Type(t), q)),
        }
    } else {
        Err(("P0002"@, span_at(toks, p), "expected an item (a `fn` or `type` declaration)"@))
    }
}

/// The imports and items from `p` to the end, and the diagnostic parsing
/// stopped at, if any.
pub open spec fn module_from(toks: Seq<Token>, p: int) -> (Seq<(Seq<char>, Span)>, Seq<ItemV>, Option<PDiag>)
    decreases toks.len() - p,
{
    if p < 0 || p > toks.len() || kind_at(toks, p) is Eof {
        (Seq::empty(), Seq::empty(), None)
    } else if word_at(toks, p, "import"@) {
        let start = toks[p].span;
        match ident_t(toks, p + 1, "a module name after `import`"@) {
            Err(d) => (Seq::empty(), Seq::empty(), Some(d)),
            Ok((name, nspan, q)) => {
                let q2 = if crate::parser::same_kind(kind_at(toks, q), TokenKind::Semicolon) {
                    q + 1
                } else {
                    q
                };
                let (is, its, f) = module_from(toks, q2);
                (seq![(name, merge_t(start, nspan))] + is, its, f)
            },
        }
    } else {
        match item_g(toks, p) {
            Err(d) => (Seq::empty(), Seq::empty(), Some(d)),
            Ok((it, q)) => if q <= p || q > toks.len() {
                (Seq::empty(), Seq::empty(), Some(stuck(toks, q)))
            } else {
                let (is, its, f) = module_from(toks, q);
                (is, seq![it] + its, f)
            },
        }
    }
}

/// A whole token list: the module and the diagnostics (at most one).
pub open spec fn module_g(toks: Seq<Token>) -> (ModuleV, Seq<PDiag>) {
    let (is, its, f) = module_from(toks, 0);
    (
        ModuleV { imports: is, items: its },
        match f {
            Some(d) => seq![d],
            None => Seq::empty(),
        },
    )
}


/// A whole token list read as one expression that must end the input: the
/// expression, or the diagnostics (one) that stop it.
pub open spec fn expr_input_g(toks: Seq<Token>) -> Result<ExprV, Seq<PDiag>> {
    match bp_t(toks, 0, 0) {
        Err(d) => Err(seq![d]),
        Ok((e, p)) => if kind_at(toks, p) is Eof {
            Ok(e)
        } else {
            Err(seq![("P0003"@, span_at(toks, p), "unexpected trailing input after expression"@)])
        },
    }
}

/// The plain data of a list of names with spans.
pub open spec fn names_view2(ns: Seq<(String, Span)>) -> Seq<(Seq<char>, Span)> {
    ns.map_values(|x: (String, Span)| (x.0@, x.1))
}

/// Keep the later clause's span, else the earlier one.
pub open spec fn later_span(later: Option<Span>, earlier: Option<Span>) -> Option<Span> {
    match later {
        Some(x) => Some(x),
        None => earlier,
    }
}

/// The binary operator a token stands for, if any.
pub open spec fn token_op(k: TokenKind) -> Option<BinaryOp> {
    match spec_binding_power(k) {
        Some((op, _)) => Some(op),
        None => None,
    }
}

/// How tightly a token binds as a binary operator (0 when it is none).
pub open spec fn token_bp(k: TokenKind) -> int {
    match spec_binding_power(k) {
        Some((_, bp)) => bp as int,
        None => 0,
    }
}

/// Each operator symbol, as the lexer reads it, stands for the operator it
/// spells, and the operators bind in the usual order: `*` `/` `%` tighter
/// than `+` `-`, tighter than the orderings, tighter than `==` `!=`, tighter
/// than `&&`, tighter than `||`; operators of one level bind alike (so they
/// group to the left).
pub proof fn law_operator_symbols_and_precedence()
    ensures
        crate::lexer::one_char_op('+') matches Some(k) && token_op(k) == Some(BinaryOp::Add),
        crate::lexer::one_char_op('-') matches Some(k) && token_op(k) == Some(BinaryOp::Sub),
        crate::lexer::one_char_op('*') matches Some(k) && token_op(k) == Some(BinaryOp::Mul),
        crate::lexer::one_char_op('/') matches Some(k) && token_op(k) == Some(BinaryOp::Div),
        crate::lexer::one_char_op('%') matches Some(k) && token_op(k) == Some(BinaryOp::Rem),
        crate::lexer::one_char_op('<') matches Some(k) && token_op(k) == Some(BinaryOp::Lt),
        crate::lexer::one_char_op('>') matches Some(k) && token_op(k) == Some(BinaryOp::Gt),
        crate::lexer::two_char_op('<', '=') matches Some(k) && token_op(k) == Some(BinaryOp::Le),
        crate::lexer::two_char_op('>', '=') matches Some(k) && token_op(k) == Some(BinaryOp::Ge),
        crate::lexer::two_char_op('=', '=') matches Some(k) && token_op(k) == Some(BinaryOp::Eq),
        crate::lexer::two_char_op('!', '=') matches Some(k) && token_op(k) == Some(BinaryOp::Ne),
        crate::lexer::two_char_op('&', '&') matches Some(k) && token_op(k) == Some(BinaryOp::And),
        crate::lexer::two_char_op('|', '|') matches Some(k) && token_op(k) == Some(BinaryOp::Or),
        token_bp(TokenKind::Star) == token_bp(TokenKind::Slash) && token_bp(TokenKind::Slash) == token_bp(TokenKind::Percent),
        token_bp(TokenKind::Plus) == token_bp(TokenKind::Minus),
        token_bp(TokenKind::Lt) == token_bp(TokenKind::LtEq) && token_bp(TokenKind::LtEq) == token_bp(TokenKind::Gt)
            && token_bp(TokenKind::Gt) == token_bp(TokenKind::GtEq),
        token_bp(TokenKind::EqEq) == token_bp(TokenKind::NotEq),
        token_bp(TokenKind::Star) > token_bp(TokenKind::Plus),
        token_bp(TokenKind::Plus) > token_bp(TokenKind::Lt),
        token_bp(TokenKind::Lt) > token_bp(TokenKind::EqEq),
        token_bp(TokenKind::EqEq) > token_bp(TokenKind::AmpAmp),
        token_bp(TokenKind::AmpAmp) > token_bp(TokenKind::PipePipe),
        token_bp(TokenKind::PipePipe) > 0,
{
}

} // verus!
