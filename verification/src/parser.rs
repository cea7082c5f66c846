//! The parser: tokens to AST, by recursive descent with Pratt-style binding
//! powers for binary operators, so `1 + 2 * 3` parses as `1 + (2 * 3)` and
//! operators of equal power associate to the left.
//!
//! A parse error produces one structured diagnostic and stops; there is no
//! recovery past the first error.

use vstd::prelude::*;
use crate::ast::{BinaryOp, Block, Contract, Effect, EffectSet, Expr, Function, Import, Item, Literal, LiteralKind, MatchArm, Module, Param, Pattern, Signature, Stmt, TypeDecl, TypeExpr, UnaryOp, Variant};
use crate::diagnostic::{Diagnostic, Severity};
use crate::lexer::{byte_len, lex, lex_from, lexed_as, tokens_wf};
use crate::span::Span;
use crate::text::{copy_string, push_str, string_is};
use crate::token::{Keyword, Token, TokenKind};
use crate::grammar::{
    arms_t, bp_loop_t, bp_t, call_args_t, describe_t, expect_t, expected_t, expr_res, expr_view, expr_views, ident_t, merge_t,
    pat_res, pat_view, pat_views, pattern_t, patterns_t, postfix_loop_t, postfix_t, primary_t, span_at, symbol_t, tex_res,
    tex_view, tex_views, type_args_t, type_list_opt, type_t, types_t, unary_t, lemma_tex_views_push, lemma_pat_views_push,
    lemma_expr_views_push, lemma_arm_views_push, ArmV, ExprV, PatV, TexV, block_g, stmts_g, stmt_g, if_g, let_g, return_g,
    stmt_res, block_res, stmt_view, stmt_views, lemma_stmt_views_push, StmtV, names_g, names_list_g, names_view2, params_g,
    param_view, clauses_g, contract_view, later_span, function_g, function_view, variants_g, variant_view, type_decl_g, decl_view,
    item_g, item_view, module_from, module_g, module_view, word_at, expr_input_g, PDiag, ParamV, ContractV, VariantV, ItemV,
};

verus! {

/// The result of parsing a source: the (possibly partial) module and any
/// diagnostics from lexing and parsing.
#[derive(Debug, PartialEq, Eq)]
pub struct ParseResult {
    pub module: Module,
    pub diagnostics: Vec<Diagnostic>,
}

/// A parse failure is an error-severity diagnostic with code `P0001`
/// (an expected token is missing) or `P0002` (no expression or item starts
/// here).
pub open spec fn parse_err<T>(r: Result<T, Diagnostic>) -> bool {
    r is Err ==> r->Err_0.severity == Severity::Error && r->Err_0.blame is None && (r->Err_0.code@ == "P0001"@
        || r->Err_0.code@ == "P0002"@)
}

/// A token stream the parser can walk: non-empty, ending in `Eof`, with well
/// formed spans.
pub open spec fn stream_wf(toks: Seq<Token>) -> bool {
    &&& 0 < toks.len() < usize::MAX
    &&& toks.last().kind is Eof
    &&& forall|k: int| #![trigger toks[k]] 0 <= k < toks.len() ==> toks[k].span.wf()
}

/// The binary operator a token spells, with its binding power (higher binds
/// tighter): `||` 1, `&&` 2, `==`/`!=` 3, comparisons 4, `+`/`-` 5,
/// `*`/`/`/`%` 6.
pub open spec fn spec_binding_power(kind: TokenKind) -> Option<(BinaryOp, u8)> {
    match kind {
        TokenKind::PipePipe => Some((BinaryOp::Or, 1u8)),
        TokenKind::AmpAmp => Some((BinaryOp::And, 2u8)),
        TokenKind::EqEq => Some((BinaryOp::Eq, 3u8)),
        TokenKind::NotEq => Some((BinaryOp::Ne, 3u8)),
        TokenKind::Lt => Some((BinaryOp::Lt, 4u8)),
        TokenKind::LtEq => Some((BinaryOp::Le, 4u8)),
        TokenKind::Gt => Some((BinaryOp::Gt, 4u8)),
        TokenKind::GtEq => Some((BinaryOp::Ge, 4u8)),
        TokenKind::Plus => Some((BinaryOp::Add, 5u8)),
        TokenKind::Minus => Some((BinaryOp::Sub, 5u8)),
        TokenKind::Star => Some((BinaryOp::Mul, 6u8)),
        TokenKind::Slash => Some((BinaryOp::Div, 6u8)),
        TokenKind::Percent => Some((BinaryOp::Rem, 6u8)),
        _ => None,
    }
}

/// Left binding power for each binary operator.
pub fn binding_power(kind: &TokenKind) -> (r: Option<(BinaryOp, u8)>)
    ensures
        r == spec_binding_power(*kind),
{
    match kind {
        TokenKind::PipePipe => Some((BinaryOp::Or, 1)),
        TokenKind::AmpAmp => Some((BinaryOp::And, 2)),
        TokenKind::EqEq => Some((BinaryOp::Eq, 3)),
        TokenKind::NotEq => Some((BinaryOp::Ne, 3)),
        TokenKind::Lt => Some((BinaryOp::Lt, 4)),
        TokenKind::LtEq => Some((BinaryOp::Le, 4)),
        TokenKind::Gt => Some((BinaryOp::Gt, 4)),
        TokenKind::GtEq => Some((BinaryOp::Ge, 4)),
        TokenKind::Plus => Some((BinaryOp::Add, 5)),
        TokenKind::Minus => Some((BinaryOp::Sub, 5)),
        TokenKind::Star => Some((BinaryOp::Mul, 6)),
        TokenKind::Slash => Some((BinaryOp::Div, 6)),
        TokenKind::Percent => Some((BinaryOp::Rem, 6)),
        _ => None,
    }
}

/// Whether two token kinds are of the same category (payloads of literals and
/// identifiers are not compared; keywords must be the same keyword).
pub open spec fn same_kind(a: TokenKind, b: TokenKind) -> bool {
    match (a, b) {
        (TokenKind::Int(_), TokenKind::Int(_)) => true,
        (TokenKind::Text(_), TokenKind::Text(_)) => true,
        (TokenKind::Ident(_), TokenKind::Ident(_)) => true,
        (TokenKind::Keyword(x), TokenKind::Keyword(y)) => x == y,
        (TokenKind::Plus, TokenKind::Plus) => true,
        (TokenKind::Minus, TokenKind::Minus) => true,
        (TokenKind::Star, TokenKind::Star) => true,
        (TokenKind::Slash, TokenKind::Slash) => true,
        (TokenKind::Percent, TokenKind::Percent) => true,
        (TokenKind::EqEq, TokenKind::EqEq) => true,
        (TokenKind::NotEq, TokenKind::NotEq) => true,
        (TokenKind::Lt, TokenKind::Lt) => true,
        (TokenKind::LtEq, TokenKind::LtEq) => true,
        (TokenKind::Gt, TokenKind::Gt) => true,
        (TokenKind::GtEq, TokenKind::GtEq) => true,
        (TokenKind::Eq, TokenKind::Eq) => true,
        (TokenKind::Bang, TokenKind::Bang) => true,
        (TokenKind::AmpAmp, TokenKind::AmpAmp) => true,
        (TokenKind::PipePipe, TokenKind::PipePipe) => true,
        (TokenKind::Arrow, TokenKind::Arrow) => true,
        (TokenKind::FatArrow, TokenKind::FatArrow) => true,
        (TokenKind::Pipe, TokenKind::Pipe) => true,
        (TokenKind::Dot, TokenKind::Dot) => true,
        (TokenKind::LParen, TokenKind::LParen) => true,
        (TokenKind::RParen, TokenKind::RParen) => true,
        (TokenKind::LBrace, TokenKind::LBrace) => true,
        (TokenKind::RBrace, TokenKind::RBrace) => true,
        (TokenKind::Comma, TokenKind::Comma) => true,
        (TokenKind::Colon, TokenKind::Colon) => true,
        (TokenKind::Semicolon, TokenKind::Semicolon) => true,
        (TokenKind::Eof, TokenKind::Eof) => true,
        _ => false,
    }
}

fn kind_is(a: &TokenKind, b: &TokenKind) -> (r: bool)
    ensures
        r == same_kind(*a, *b),
{
    match (a, b) {
        (TokenKind::Int(_), TokenKind::Int(_)) => true,
        (TokenKind::Text(_), TokenKind::Text(_)) => true,
        (TokenKind::Ident(_), TokenKind::Ident(_)) => true,
        (TokenKind::Keyword(x), TokenKind::Keyword(y)) => *x == *y,
        (TokenKind::Plus, TokenKind::Plus) => true,
        (TokenKind::Minus, TokenKind::Minus) => true,
        (TokenKind::Star, TokenKind::Star) => true,
        (TokenKind::Slash, TokenKind::Slash) => true,
        (TokenKind::Percent, TokenKind::Percent) => true,
        (TokenKind::EqEq, TokenKind::EqEq) => true,
        (TokenKind::NotEq, TokenKind::NotEq) => true,
        (TokenKind::Lt, TokenKind::Lt) => true,
        (TokenKind::LtEq, TokenKind::LtEq) => true,
        (TokenKind::Gt, TokenKind::Gt) => true,
        (TokenKind::GtEq, TokenKind::GtEq) => true,
        (TokenKind::Eq, TokenKind::Eq) => true,
        (TokenKind::Bang, TokenKind::Bang) => true,
        (TokenKind::AmpAmp, TokenKind::AmpAmp) => true,
        (TokenKind::PipePipe, TokenKind::PipePipe) => true,
        (TokenKind::Arrow, TokenKind::Arrow) => true,
        (TokenKind::FatArrow, TokenKind::FatArrow) => true,
        (TokenKind::Pipe, TokenKind::Pipe) => true,
        (TokenKind::Dot, TokenKind::Dot) => true,
        (TokenKind::LParen, TokenKind::LParen) => true,
        (TokenKind::RParen, TokenKind::RParen) => true,
        (TokenKind::LBrace, TokenKind::LBrace) => true,
        (TokenKind::RBrace, TokenKind::RBrace) => true,
        (TokenKind::Comma, TokenKind::Comma) => true,
        (TokenKind::Colon, TokenKind::Colon) => true,
        (TokenKind::Semicolon, TokenKind::Semicolon) => true,
        (TokenKind::Eof, TokenKind::Eof) => true,
        _ => false,
    }
}

/// The token kind at `pos`, or `Eof` past the end.
pub open spec fn kind_at(toks: Seq<Token>, pos: int) -> TokenKind {
    if 0 <= pos < toks.len() { toks[pos].kind } else { TokenKind::Eof }
}

fn peek(toks: &Vec<Token>, pos: usize) -> (k: &TokenKind)
    ensures
        *k == kind_at(toks@, pos as int),
{
    if pos < toks.len() { &toks[pos].kind } else { &TokenKind::Eof }
}

fn peek_is(toks: &Vec<Token>, pos: usize, want: &TokenKind) -> (r: bool)
    ensures
        r == same_kind(kind_at(toks@, pos as int), *want),
{
    kind_is(peek(toks, pos), want)
}

fn peek_span(toks: &Vec<Token>, pos: usize) -> (s: Span)
    requires
        stream_wf(toks@),
    ensures
        s.wf(),
        pos < toks@.len() ==> s == toks@[pos as int].span,
        s == span_at(toks@, pos as int),
{
    if pos < toks.len() {
        toks[pos].span
    } else {
        let last = toks.len() - 1;
        toks[last].span
    }
}

fn at_end(toks: &Vec<Token>, pos: usize) -> (r: bool)
    ensures
        r == (kind_at(toks@, pos as int) is Eof),
{
    match peek(toks, pos) {
        TokenKind::Eof => true,
        _ => false,
    }
}

/// A short, stable description of a token kind for diagnostic messages.
fn describe(kind: &TokenKind) -> (r: String)
    ensures
        r@ == describe_t(*kind),
{
    match kind {
        TokenKind::Int(_) => String::from_str("an integer literal"),
        TokenKind::Text(_) => String::from_str("a text literal"),
        TokenKind::Ident(_) => String::from_str("an identifier"),
        TokenKind::Keyword(_) => String::from_str("a keyword"),
        TokenKind::Eof => String::from_str("end of input"),
        other => {
            let mut s = String::from_str("`");
            proof {
                reveal_strlit("`");
            }
            push_str(&mut s, symbol(other));
            push_str(&mut s, "`");
            s
        },
    }
}

fn symbol(kind: &TokenKind) -> (r: &'static str)
    ensures
        r@ == symbol_t(*kind),
{
    match kind {
        TokenKind::Plus => "+",
        TokenKind::Minus => "-",
        TokenKind::Star => "*",
        TokenKind::Slash => "/",
        TokenKind::Percent => "%",
        TokenKind::EqEq => "==",
        TokenKind::NotEq => "!=",
        TokenKind::Lt => "<",
        TokenKind::LtEq => "<=",
        TokenKind::Gt => ">",
        TokenKind::GtEq => ">=",
        TokenKind::Eq => "=",
        TokenKind::Bang => "!",
        TokenKind::AmpAmp => "&&",
        TokenKind::PipePipe => "||",
        TokenKind::Arrow => "->",
        TokenKind::FatArrow => "=>",
        TokenKind::Pipe => "|",
        TokenKind::Dot => ".",
        TokenKind::LParen => "(",
        TokenKind::RParen => ")",
        TokenKind::LBrace => "{",
        TokenKind::RBrace => "}",
        TokenKind::Comma => ",",
        TokenKind::Colon => ":",
        TokenKind::Semicolon => ";",
        _ => "token",
    }
}

/// A diagnostic anchored at the current token.
fn error_here(toks: &Vec<Token>, pos: usize, code: &str, message: &str) -> (d: Diagnostic)
    requires
        stream_wf(toks@),
    ensures
        d.code@ == code@,
        d.severity == Severity::Error,
        d.blame is None,
        d@ == (code@, span_at(toks@, pos as int), message@),
{
    Diagnostic::error(code, peek_span(toks, pos), message)
}

/// "expected `what`, found <the current token>" with code `P0001`.
fn expected(toks: &Vec<Token>, pos: usize, what: &str) -> (d: Diagnostic)
    requires
        stream_wf(toks@),
    ensures
        d.code@ == "P0001"@,
        d.severity == Severity::Error,
        d.blame is None,
        d@ == expected_t(toks@, pos as int, what@),
{
    let mut m = String::from_str("expected ");
    push_str(&mut m, what);
    push_str(&mut m, ", found ");
    let found = describe(peek(toks, pos));
    push_str(&mut m, found.as_str());
    proof {
        reveal_strlit("expected ");
        reveal_strlit(", found ");
        reveal_strlit("P0001");
    }
    error_here(toks, pos, "P0001", m.as_str())
}

/// Consume a token of the wanted kind, returning its span and the position
/// after it, or report `P0001`.
fn expect(toks: &Vec<Token>, pos: usize, want: &TokenKind, what: &str) -> (r: Result<(Span, usize), Diagnostic>)
    requires
        stream_wf(toks@),
        !(*want is Eof),
    ensures
        parse_err(r),
        r is Ok ==> r->Ok_0.1 == pos + 1 && r->Ok_0.1 <= toks@.len() && r->Ok_0.0.wf()
            && r->Ok_0.0 == toks@[pos as int].span,
        r is Ok <==> same_kind(kind_at(toks@, pos as int), *want),
        r is Err ==> r->Err_0.code@ == "P0001"@,
        match (r, expect_t(toks@, pos as int, *want, what@)) {
            (Ok((s1, q1)), Ok((s2, q2))) => s1 == s2 && q1 as int == q2,
            (Err(d), Err(e)) => d@ == e,
            _ => false,
        },
{
    if peek_is(toks, pos, want) {
        assert(pos < toks@.len());
        Ok((toks[pos].span, pos + 1))
    } else {
        Err(expected(toks, pos, what))
    }
}

/// Consume an identifier, returning its text, span and the next position.
fn expect_ident(toks: &Vec<Token>, pos: usize, what: &str) -> (r: Result<(String, Span, usize), Diagnostic>)
    requires
        stream_wf(toks@),
    ensures
        parse_err(r),
        r is Ok ==> r->Ok_0.2 == pos + 1 && r->Ok_0.2 <= toks@.len() && r->Ok_0.1.wf(),
        r is Ok <==> kind_at(toks@, pos as int) is Ident,
        r is Err ==> r->Err_0.code@ == "P0001"@,
        match (r, ident_t(toks@, pos as int, what@)) {
            (Ok((n1, s1, q1)), Ok((n2, s2, q2))) => n1@ == n2 && s1 == s2 && q1 as int == q2,
            (Err(d), Err(e)) => d@ == e,
            _ => false,
        },
{
    match peek(toks, pos) {
        TokenKind::Ident(name) => {
            assert(pos < toks@.len());
            Ok((copy_string(name), toks[pos].span, pos + 1))
        },
        _ => Err(expected(toks, pos, what)),
    }
}

/// Whether the token at `pos` is the identifier `word` (used for the
/// contextual words `type`, `import` and `export`).
fn peek_word(toks: &Vec<Token>, pos: usize, word: &str) -> (r: bool)
    ensures
        r ==> kind_at(toks@, pos as int) is Ident,
        r == word_at(toks@, pos as int, word@),
{
    match peek(toks, pos) {
        TokenKind::Ident(name) => string_is(name, word),
        _ => false,
    }
}

// --- Types ------------------------------------------------------------------

/// Parse a type: `Name`, `Name<T, ...>`, or `fn(P, ...) -> R`.
fn parse_type(toks: &Vec<Token>, pos: usize) -> (r: Result<(TypeExpr, usize), Diagnostic>)
    requires
        stream_wf(toks@),
        pos <= toks@.len(),
    ensures
        parse_err(r),
        r is Ok ==> pos < r->Ok_0.1 <= toks@.len() && r->Ok_0.0.span.wf(),
        tex_res(r, type_t(toks@, pos as int)),
    decreases toks@.len() - pos, 0int,
{
    if peek_is(toks, pos, &TokenKind::Keyword(Keyword::Fn)) {
        let start = toks[pos].span;
        let (_, p0) = expect(toks, pos + 1, &TokenKind::LParen, "`(` after `fn` in a function type")?;
        let mut p = p0;
        let mut args: Vec<TypeExpr> = Vec::new();
        if !peek_is(toks, p, &TokenKind::RParen) {
            let (items, q) = parse_types(toks, p)?;
            args = items;
            p = q;
        }
        let (_, p2) = expect(toks, p, &TokenKind::RParen, "`)` to close the function type's parameters")?;
        let (_, p3) = expect(toks, p2, &TokenKind::Arrow, "`->` and a return type in a function type")?;
        let (ret, p4) = parse_type(toks, p3)?;
        let span = start.merge(&ret.span);
        let ghost av = args@;
        let ghost rt = ret;
        args.push(ret);
        proof {
            lemma_tex_views_push(av, rt);
            reveal_strlit("fn");
        }
        return Ok((TypeExpr { name: String::from_str("fn"), args, span }, p4));
    }
    let (name, span, p0) = expect_ident(toks, pos, "a type name")?;
    let mut p = p0;
    let mut args: Vec<TypeExpr> = Vec::new();
    let mut end = span;
    if peek_is(toks, p, &TokenKind::Lt) {
        let (items, q) = parse_types(toks, p + 1)?;
        args = items;
        let (e, q2) = expect(toks, q, &TokenKind::Gt, "`>` to close the type arguments")?;
        end = e;
        p = q2;
    } else {
        assert(tex_views(args@) =~= Seq::<TexV>::empty());
    }
    Ok((TypeExpr { name, args, span: span.merge(&end) }, p))
}

/// Parse a comma-separated list of types, at least one.
fn parse_types(toks: &Vec<Token>, pos: usize) -> (r: Result<(Vec<TypeExpr>, usize), Diagnostic>)
    requires
        stream_wf(toks@),
        pos <= toks@.len(),
    ensures
        parse_err(r),
        r is Ok ==> pos < r->Ok_0.1 <= toks@.len(),
        match (r, types_t(toks@, pos as int)) {
            (Ok((ts, q)), Ok((vs, q2))) => tex_views(ts@) == vs && q as int == q2,
            (Err(d), Err(e)) => d@ == e,
            _ => false,
        },
    decreases toks@.len() - pos, 1int,
{
    let ghost full = types_t(toks@, pos as int);
    let mut p = pos;
    let mut args: Vec<TypeExpr> = Vec::new();
    assert(tex_views(args@) =~= Seq::<TexV>::empty());
    loop
        invariant_except_break
            match types_t(toks@, p as int) {
                Err(d) => full == Err::<(Seq<TexV>, int), crate::grammar::PDiag>(d),
                Ok((ts, r)) => full == Ok::<(Seq<TexV>, int), crate::grammar::PDiag>((tex_views(args@) + ts, r)),
            },
        invariant
            stream_wf(toks@),
            pos <= p <= toks@.len(),
            full == types_t(toks@, pos as int),
            args@.len() > 0 ==> pos < p,
        ensures
            full == Ok::<(Seq<TexV>, int), crate::grammar::PDiag>((tex_views(args@), p as int)),
            pos < p,
        decreases toks@.len() - p,
    {
        let (t, q) = parse_type(toks, p)?;
        let ghost av = args@;
        let ghost tv = t;
        args.push(t);
        proof {
            lemma_tex_views_push(av, tv);
        }
        if peek_is(toks, q, &TokenKind::Comma) {
            proof {
                match types_t(toks@, q + 1) {
                    Err(d) => {},
                    Ok((ts, r)) => {
                        assert(tex_views(args@) + ts =~= tex_views(av) + (seq![tex_view(tv)] + ts));
                    },
                }
            }
            p = q + 1;
        } else {
            proof {
                assert(tex_views(args@) =~= tex_views(av) + seq![tex_view(tv)]);
            }
            p = q;
            break;
        }
    }
    Ok((args, p))
}

// --- Patterns ---------------------------------------------------------------

fn pattern_span(p: &Pattern) -> (s: Span)
    ensures
        s == pattern_spec_span(*p),
{
    match p {
        Pattern::Wildcard { span } => *span,
        Pattern::Ident { span, .. } => *span,
        Pattern::Variant { span, .. } => *span,
    }
}

/// The span recorded on a pattern.
pub open spec fn pattern_spec_span(p: Pattern) -> Span {
    match p {
        Pattern::Wildcard { span } => span,
        Pattern::Ident { span, .. } => span,
        Pattern::Variant { span, .. } => span,
    }
}

/// Parse a pattern: `_`, a name, or `Variant(p, ...)`.
fn parse_pattern(toks: &Vec<Token>, pos: usize) -> (r: Result<(Pattern, usize), Diagnostic>)
    requires
        stream_wf(toks@),
        pos <= toks@.len(),
    ensures
        parse_err(r),
        r is Ok ==> pos < r->Ok_0.1 <= toks@.len() && pattern_spec_span(r->Ok_0.0).wf(),
        pat_res(r, pattern_t(toks@, pos as int)),
    decreases toks@.len() - pos, 0int,
{
    let (name, span, p0) = expect_ident(toks, pos, "a pattern")?;
    if string_is(&name, "_") {
        return Ok((Pattern::Wildcard { span }, p0));
    }
    if !peek_is(toks, p0, &TokenKind::LParen) {
        return Ok((Pattern::Ident { name, span }, p0));
    }
    let mut p = p0 + 1;
    let mut args: Vec<Pattern> = Vec::new();
    if !peek_is(toks, p, &TokenKind::RParen) {
        let (items, q) = parse_patterns(toks, p)?;
        args = items;
        p = q;
    } else {
        assert(pat_views(args@) =~= Seq::<PatV>::empty());
    }
    let (end, q) = expect(toks, p, &TokenKind::RParen, "`)` to close the pattern")?;
    Ok((Pattern::Variant { name, args, span: span.merge(&end) }, q))
}

/// Parse a comma-separated list of patterns, at least one.
fn parse_patterns(toks: &Vec<Token>, pos: usize) -> (r: Result<(Vec<Pattern>, usize), Diagnostic>)
    requires
        stream_wf(toks@),
        pos <= toks@.len(),
    ensures
        parse_err(r),
        r is Ok ==> pos < r->Ok_0.1 <= toks@.len(),
        match (r, patterns_t(toks@, pos as int)) {
            (Ok((ps, q)), Ok((vs, q2))) => pat_views(ps@) == vs && q as int == q2,
            (Err(d), Err(e)) => d@ == e,
            _ => false,
        },
    decreases toks@.len() - pos, 1int,
{
    let ghost full = patterns_t(toks@, pos as int);
    let mut p = pos;
    let mut args: Vec<Pattern> = Vec::new();
    assert(pat_views(args@) =~= Seq::<PatV>::empty());
    loop
        invariant_except_break
            match patterns_t(toks@, p as int) {
                Err(d) => full == Err::<(Seq<PatV>, int), crate::grammar::PDiag>(d),
                Ok((ts, r)) => full == Ok::<(Seq<PatV>, int), crate::grammar::PDiag>((pat_views(args@) + ts, r)),
            },
        invariant
            stream_wf(toks@),
            pos <= p <= toks@.len(),
            full == patterns_t(toks@, pos as int),
        ensures
            full == Ok::<(Seq<PatV>, int), crate::grammar::PDiag>((pat_views(args@), p as int)),
            pos < p,
        decreases toks@.len() - p,
    {
        let (t, q) = parse_pattern(toks, p)?;
        let ghost av = args@;
        let ghost tv = t;
        args.push(t);
        proof {
            lemma_pat_views_push(av, tv);
        }
        if peek_is(toks, q, &TokenKind::Comma) {
            proof {
                match patterns_t(toks@, q + 1) {
                    Err(d) => {},
                    Ok((ts, r)) => {
                        assert(pat_views(args@) + ts =~= pat_views(av) + (seq![pat_view(tv)] + ts));
                    },
                }
            }
            p = q + 1;
        } else {
            proof {
                assert(pat_views(args@) =~= pat_views(av) + seq![pat_view(tv)]);
            }
            p = q;
            break;
        }
    }
    Ok((args, p))
}

// --- Expressions ------------------------------------------------------------

/// The post-state of an expression parse: at least one token consumed, and
/// the expression's span well formed.
pub open spec fn expr_ok(toks: Seq<Token>, pos: int, r: Result<(Expr, usize), Diagnostic>) -> bool {
    r is Ok ==> pos < r->Ok_0.1 <= toks.len() && r->Ok_0.0.spec_span().wf()
}

/// Parse an expression (all binary operators).
fn expression(toks: &Vec<Token>, pos: usize) -> (r: Result<(Expr, usize), Diagnostic>)
    requires
        stream_wf(toks@),
        pos <= toks@.len(),
    ensures
        parse_err(r),
        expr_ok(toks@, pos as int, r),
        expr_res(r, bp_t(toks@, pos as int, 0)),
    decreases toks@.len() - pos, 4int,
{
    expr_bp(toks, pos, 0)
}

/// Pratt parser: parse operators whose binding power is at least `min_bp`.
fn expr_bp(toks: &Vec<Token>, pos: usize, min_bp: u8) -> (r: Result<(Expr, usize), Diagnostic>)
    requires
        stream_wf(toks@),
        pos <= toks@.len(),
    ensures
        parse_err(r),
        expr_ok(toks@, pos as int, r),
        expr_res(r, bp_t(toks@, pos as int, min_bp as int)),
    decreases toks@.len() - pos, 3int,
{
    let ghost full = bp_t(toks@, pos as int, min_bp as int);
    let (lhs0, p0) = unary(toks, pos)?;
    let mut lhs = lhs0;
    let mut p = p0;
    loop
        invariant_except_break
            bp_loop_t(toks@, expr_view(lhs), p as int, min_bp as int) == full,
        invariant
            stream_wf(toks@),
            pos < p <= toks@.len(),
            lhs.spec_span().wf(),
            full == bp_t(toks@, pos as int, min_bp as int),
        ensures
            full == Ok::<(ExprV, int), crate::grammar::PDiag>((expr_view(lhs), p as int)),
            pos < p <= toks@.len(),
            lhs.spec_span().wf(),
        decreases toks@.len() - p,
    {
        match binding_power(peek(toks, p)) {
            Some((op, bp)) => {
                if bp < min_bp {
                    break;
                }
                assert(p < toks@.len());
                let (rhs, q) = expr_bp(toks, p + 1, bp + 1)?;
                let span = lhs.span().merge(&rhs.span());
                lhs = Expr::Binary { op, left: Box::new(lhs), right: Box::new(rhs), span };
                p = q;
            },
            None => {
                break;
            },
        }
    }
    Ok((lhs, p))
}

fn unary(toks: &Vec<Token>, pos: usize) -> (r: Result<(Expr, usize), Diagnostic>)
    requires
        stream_wf(toks@),
        pos <= toks@.len(),
    ensures
        parse_err(r),
        expr_ok(toks@, pos as int, r),
        expr_res(r, unary_t(toks@, pos as int)),
    decreases toks@.len() - pos, 2int,
{
    let op = match peek(toks, pos) {
        TokenKind::Minus => Some(UnaryOp::Neg),
        TokenKind::Bang => Some(UnaryOp::Not),
        _ => None,
    };
    match op {
        Some(op) => {
            assert(pos < toks@.len());
            let start = toks[pos].span;
            let (operand, q) = unary(toks, pos + 1)?;
            let span = start.merge(&operand.span());
            Ok((Expr::Unary { op, operand: Box::new(operand), span }, q))
        },
        None => postfix(toks, pos),
    }
}

/// Try to read explicit type arguments `<T, ...>` directly followed by `(`.
fn try_type_args(toks: &Vec<Token>, pos: usize) -> (r: Option<(Vec<TypeExpr>, usize)>)
    requires
        stream_wf(toks@),
        pos <= toks@.len(),
    ensures
        r matches Some((_, q)) ==> pos < q <= toks@.len() && kind_at(toks@, q as int) is LParen,
        match (r, type_args_t(toks@, pos as int)) {
            (Some((a, q)), Some((v, q2))) => tex_views(a@) == v && q as int == q2,
            (None, None) => true,
            _ => false,
        },
{
    if !peek_is(toks, pos, &TokenKind::Lt) {
        return None;
    }
    let ghost full = type_list_opt(toks@, pos + 1);
    let mut p = pos + 1;
    let mut args: Vec<TypeExpr> = Vec::new();
    assert(tex_views(args@) =~= Seq::<TexV>::empty());
    loop
        invariant_except_break
            match type_list_opt(toks@, p as int) {
                None => full is None,
                Some((ts, r)) => full == Some((tex_views(args@) + ts, r)),
            },
        invariant
            stream_wf(toks@),
            pos < p <= toks@.len(),
            full == type_list_opt(toks@, pos + 1),
        ensures
            full == Some((tex_views(args@), p as int)),
        decreases toks@.len() - p,
    {
        match parse_type(toks, p) {
            Ok((t, q)) => {
                let ghost av = args@;
                let ghost tv = t;
                args.push(t);
                proof {
                    lemma_tex_views_push(av, tv);
                }
                if peek_is(toks, q, &TokenKind::Comma) {
                    proof {
                        match type_list_opt(toks@, q + 1) {
                            None => {},
                            Some((ts, r)) => {
                                assert(tex_views(args@) + ts =~= tex_views(av) + (seq![tex_view(tv)] + ts));
                            },
                        }
                    }
                    p = q + 1;
                } else {
                    proof {
                        assert(tex_views(args@) =~= tex_views(av) + seq![tex_view(tv)]);
                    }
                    p = q;
                    break;
                }
            },
            Err(_) => {
                return None;
            },
        }
    }
    if !peek_is(toks, p, &TokenKind::Gt) {
        return None;
    }
    if !peek_is(toks, p + 1, &TokenKind::LParen) {
        return None;
    }
    Some((args, p + 1))
}

/// Primary expressions followed by any number of call or member suffixes.
fn postfix(toks: &Vec<Token>, pos: usize) -> (r: Result<(Expr, usize), Diagnostic>)
    requires
        stream_wf(toks@),
        pos <= toks@.len(),
    ensures
        parse_err(r),
        expr_ok(toks@, pos as int, r),
        expr_res(r, postfix_t(toks@, pos as int)),
    decreases toks@.len() - pos, 1int,
{
    let ghost full = postfix_t(toks@, pos as int);
    let (e0, p0) = primary(toks, pos)?;
    let mut expr = e0;
    let mut p = p0;
    loop
        invariant_except_break
            postfix_loop_t(toks@, expr_view(expr), p as int) == full,
        invariant
            stream_wf(toks@),
            pos < p <= toks@.len(),
            expr.spec_span().wf(),
            full == postfix_t(toks@, pos as int),
        ensures
            full == Ok::<(ExprV, int), crate::grammar::PDiag>((expr_view(expr), p as int)),
            pos < p <= toks@.len(),
            expr.spec_span().wf(),
        decreases toks@.len() - p,
    {
        if peek_is(toks, p, &TokenKind::Dot) {
            let (name, nspan, q) = expect_ident(toks, p + 1, "a member name after `.`")?;
            let span = expr.span().merge(&nspan);
            expr = Expr::Member { base: Box::new(expr), name, span };
            p = q;
            continue;
        }
        let mut type_args: Vec<TypeExpr> = Vec::new();
        let mut at = p;
        if let Expr::Identifier { .. } = &expr {
            match try_type_args(toks, p) {
                Some((tas, q)) => {
                    type_args = tas;
                    at = q;
                },
                None => {
                    assert(tex_views(type_args@) =~= Seq::<TexV>::empty());
                },
            }
        } else {
            assert(tex_views(type_args@) =~= Seq::<TexV>::empty());
        }
        if !peek_is(toks, at, &TokenKind::LParen) {
            break;
        }
        let q = at + 1;
        let mut args: Vec<Expr> = Vec::new();
        let mut q1 = q;
        if !peek_is(toks, q, &TokenKind::RParen) {
            let (items, q2) = parse_call_args(toks, q)?;
            args = items;
            q1 = q2;
        } else {
            assert(expr_views(args@) =~= Seq::<ExprV>::empty());
        }
        let (end, q3) = expect(toks, q1, &TokenKind::RParen, "`)` to close the call arguments")?;
        let span = expr.span().merge(&end);
        expr = Expr::Call { callee: Box::new(expr), type_args, args, span };
        p = q3;
    }
    Ok((expr, p))
}

/// Parse comma-separated call arguments, at least one.
fn parse_call_args(toks: &Vec<Token>, pos: usize) -> (r: Result<(Vec<Expr>, usize), Diagnostic>)
    requires
        stream_wf(toks@),
        pos <= toks@.len(),
    ensures
        parse_err(r),
        r is Ok ==> pos < r->Ok_0.1 <= toks@.len(),
        match (r, call_args_t(toks@, pos as int)) {
            (Ok((es, q)), Ok((vs, q2))) => expr_views(es@) == vs && q as int == q2,
            (Err(d), Err(e)) => d@ == e,
            _ => false,
        },
    decreases toks@.len() - pos, 5int,
{
    let ghost full = call_args_t(toks@, pos as int);
    let mut p = pos;
    let mut args: Vec<Expr> = Vec::new();
    assert(expr_views(args@) =~= Seq::<ExprV>::empty());
    loop
        invariant_except_break
            match call_args_t(toks@, p as int) {
                Err(d) => full == Err::<(Seq<ExprV>, int), crate::grammar::PDiag>(d),
                Ok((ts, r)) => full == Ok::<(Seq<ExprV>, int), crate::grammar::PDiag>((expr_views(args@) + ts, r)),
            },
        invariant
            stream_wf(toks@),
            pos <= p <= toks@.len(),
            full == call_args_t(toks@, pos as int),
        ensures
            full == Ok::<(Seq<ExprV>, int), crate::grammar::PDiag>((expr_views(args@), p as int)),
            pos < p,
        decreases toks@.len() - p,
    {
        let (a, q) = expression(toks, p)?;
        let ghost av = args@;
        let ghost tv = a;
        args.push(a);
        proof {
            lemma_expr_views_push(av, tv);
        }
        if peek_is(toks, q, &TokenKind::Comma) {
            proof {
                match call_args_t(toks@, q + 1) {
                    Err(d) => {},
                    Ok((ts, r)) => {
                        assert(expr_views(args@) + ts =~= expr_views(av) + (seq![expr_view(tv)] + ts));
                    },
                }
            }
            p = q + 1;
        } else {
            proof {
                assert(expr_views(args@) =~= expr_views(av) + seq![expr_view(tv)]);
            }
            p = q;
            break;
        }
    }
    Ok((args, p))
}

fn primary(toks: &Vec<Token>, pos: usize) -> (r: Result<(Expr, usize), Diagnostic>)
    requires
        stream_wf(toks@),
        pos <= toks@.len(),
    ensures
        parse_err(r),
        expr_ok(toks@, pos as int, r),
        expr_res(r, primary_t(toks@, pos as int)),
    decreases toks@.len() - pos, 0int,
{
    let span = peek_span(toks, pos);
    match peek(toks, pos) {
        TokenKind::Int(v) => {
            Ok((Expr::Literal(Literal { kind: LiteralKind::Int(*v), span }), pos + 1))
        },
        TokenKind::Text(s) => {
            Ok((Expr::Literal(Literal { kind: LiteralKind::Text(copy_string(s)), span }), pos + 1))
        },
        TokenKind::Keyword(Keyword::True) => {
            Ok((Expr::Literal(Literal { kind: LiteralKind::Bool(true), span }), pos + 1))
        },
        TokenKind::Keyword(Keyword::False) => {
            Ok((Expr::Literal(Literal { kind: LiteralKind::Bool(false), span }), pos + 1))
        },
        TokenKind::Ident(name) => {
            Ok((Expr::Identifier { name: copy_string(name), span }, pos + 1))
        },
        TokenKind::LParen => {
            let (inner, q) = expr_bp(toks, pos + 1, 0)?;
            let (_, q2) = expect(toks, q, &TokenKind::RParen, "`)` to close the group")?;
            Ok((inner, q2))
        },
        TokenKind::Keyword(Keyword::Match) => {
            let (scrutinee, q) = expression(toks, pos + 1)?;
            let (_, p) = expect(toks, q, &TokenKind::LBrace, "`{` to open the match arms")?;
            let (arms, p3) = parse_arms(toks, p)?;
            let (end, p4) = expect(toks, p3, &TokenKind::RBrace, "`}` to close the match")?;
            Ok((Expr::Match { scrutinee: Box::new(scrutinee), arms, span: span.merge(&end) }, p4))
        },
        other => {
            let mut m = String::from_str("expected an expression, found ");
            let found = describe(other);
            push_str(&mut m, found.as_str());
            proof {
                reveal_strlit("expected an expression, found ");
                reveal_strlit("P0002");
            }
            Err(error_here(toks, pos, "P0002", m.as_str()))
        },
    }
}

/// Parse the arms of a `match` up to its closing `}` (or the end).
fn parse_arms(toks: &Vec<Token>, pos: usize) -> (r: Result<(Vec<MatchArm>, usize), Diagnostic>)
    requires
        stream_wf(toks@),
        pos <= toks@.len(),
    ensures
        parse_err(r),
        r is Ok ==> pos <= r->Ok_0.1 <= toks@.len(),
        match (r, arms_t(toks@, pos as int)) {
            (Ok((arms, q)), Ok((vs, q2))) => crate::grammar::arm_views(arms@) == vs && q as int == q2,
            (Err(d), Err(e)) => d@ == e,
            _ => false,
        },
    decreases toks@.len() - pos, 6int,
{
    let ghost full = arms_t(toks@, pos as int);
    let mut p = pos;
    let mut arms: Vec<MatchArm> = Vec::new();
    assert(crate::grammar::arm_views(arms@) =~= Seq::<ArmV>::empty());
    loop
        invariant_except_break
            match arms_t(toks@, p as int) {
                Err(d) => full == Err::<(Seq<ArmV>, int), crate::grammar::PDiag>(d),
                Ok((ts, r)) => full == Ok::<(Seq<ArmV>, int), crate::grammar::PDiag>((crate::grammar::arm_views(arms@) + ts, r)),
            },
        invariant
            stream_wf(toks@),
            pos <= p <= toks@.len(),
            full == arms_t(toks@, pos as int),
        ensures
            full == Ok::<(Seq<ArmV>, int), crate::grammar::PDiag>((crate::grammar::arm_views(arms@), p as int)),
            pos <= p <= toks@.len(),
        decreases toks@.len() - p,
    {
        if peek_is(toks, p, &TokenKind::RBrace) || at_end(toks, p) {
            proof {
                assert(crate::grammar::arm_views(arms@) + Seq::<ArmV>::empty() =~= crate::grammar::arm_views(arms@));
            }
            break;
        }
        let (pattern, p1) = parse_pattern(toks, p)?;
        let (_, p2) = expect(toks, p1, &TokenKind::FatArrow, "`=>` after the match pattern")?;
        let (body, p3) = expression(toks, p2)?;
        let arm_span = pattern_span(&pattern).merge(&body.span());
        let arm = MatchArm { pattern, body, span: arm_span };
        let ghost av = arms@;
        let ghost a = arm;
        arms.push(arm);
        proof {
            lemma_arm_views_push(av, a);
        }
        if peek_is(toks, p3, &TokenKind::Comma) {
            proof {
                match arms_t(toks@, p3 + 1) {
                    Err(d) => {},
                    Ok((ts, r)) => {
                        assert(crate::grammar::arm_views(arms@) + ts =~= crate::grammar::arm_views(av) + (seq![
                            ArmV { pattern: pat_view(a.pattern), body: expr_view(a.body), span: a.span },
                        ] + ts));
                    },
                }
            }
            p = p3 + 1;
        } else {
            proof {
                assert(crate::grammar::arm_views(arms@) =~= crate::grammar::arm_views(av) + seq![
                    ArmV { pattern: pat_view(a.pattern), body: expr_view(a.body), span: a.span },
                ]);
            }
            p = p3;
            break;
        }
    }
    Ok((arms, p))
}

// --- Statements and blocks --------------------------------------------------

fn parse_block(toks: &Vec<Token>, pos: usize) -> (r: Result<(Block, usize), Diagnostic>)
    requires
        stream_wf(toks@),
        pos <= toks@.len(),
    ensures
        parse_err(r),
        r is Ok ==> pos < r->Ok_0.1 <= toks@.len() && r->Ok_0.0.span.wf(),
        block_res(r, block_g(toks@, pos as int)),
    decreases toks@.len() - pos, 2int,
{
    let (start, p0) = expect(toks, pos, &TokenKind::LBrace, "`{`")?;
    let ghost full = stmts_g(toks@, p0 as int);
    let mut p = p0;
    let mut stmts: Vec<Stmt> = Vec::new();
    assert(stmt_views(stmts@) =~= Seq::<StmtV>::empty());
    while !peek_is(toks, p, &TokenKind::RBrace) && !at_end(toks, p)
        invariant
            stream_wf(toks@),
            pos < p0 <= p <= toks@.len(),
            full == stmts_g(toks@, p0 as int),
            expect_t(toks@, pos as int, TokenKind::LBrace, "`{`"@) == Ok::<(Span, int), crate::grammar::PDiag>((start, p0 as int)),
            match stmts_g(toks@, p as int) {
                Err(d) => full == Err::<(Seq<StmtV>, int), crate::grammar::PDiag>(d),
                Ok((ts, r)) => full == Ok::<(Seq<StmtV>, int), crate::grammar::PDiag>((stmt_views(stmts@) + ts, r)),
            },
        decreases toks@.len() - p,
    {
        let (st, q) = match parse_stmt(toks, p) {
            Ok(x) => x,
            Err(d) => {
                proof {
                    assert(stmts_g(toks@, p as int) == Err::<(Seq<StmtV>, int), crate::grammar::PDiag>(d@));
                    assert(full == Err::<(Seq<StmtV>, int), crate::grammar::PDiag>(d@));
                }
                return Err(d);
            },
        };
        let ghost sv = stmts@;
        let ghost stv = st;
        stmts.push(st);
        proof {
            lemma_stmt_views_push(sv, stv);
            match stmts_g(toks@, q as int) {
                Err(d) => {},
                Ok((ts, r)) => {
                    assert(stmt_views(stmts@) + ts =~= stmt_views(sv) + (seq![stmt_view(stv)] + ts));
                },
            }
        }
        p = q;
    }
    assert(stmt_views(stmts@) + Seq::<StmtV>::empty() =~= stmt_views(stmts@));
    let (end, q) = expect(toks, p, &TokenKind::RBrace, "`}`")?;
    Ok((Block { stmts, span: start.merge(&end) }, q))
}

fn parse_stmt(toks: &Vec<Token>, pos: usize) -> (r: Result<(Stmt, usize), Diagnostic>)
    requires
        stream_wf(toks@),
        pos <= toks@.len(),
    ensures
        parse_err(r),
        r is Ok ==> pos < r->Ok_0.1 <= toks@.len(),
        stmt_res(r, stmt_g(toks@, pos as int)),
    decreases toks@.len() - pos, 1int,
{
    match peek(toks, pos) {
        TokenKind::Keyword(Keyword::Let) => parse_let(toks, pos),
        TokenKind::Keyword(Keyword::Return) => parse_return(toks, pos),
        TokenKind::Keyword(Keyword::If) => parse_if(toks, pos),
        _ => {
            let (expr, q) = expression(toks, pos)?;
            let (_, q2) = expect(toks, q, &TokenKind::Semicolon, "`;` after the expression")?;
            Ok((Stmt::Expr(expr), q2))
        },
    }
}

fn parse_if(toks: &Vec<Token>, pos: usize) -> (r: Result<(Stmt, usize), Diagnostic>)
    requires
        stream_wf(toks@),
        kind_at(toks@, pos as int) == TokenKind::Keyword(Keyword::If),
    ensures
        parse_err(r),
        r is Ok ==> pos < r->Ok_0.1 <= toks@.len(),
        stmt_res(r, if_g(toks@, pos as int)),
    decreases toks@.len() - pos, 0int,
{
    let start = toks[pos].span;
    let (cond, p) = expression(toks, pos + 1)?;
    let (then_block, p2) = parse_block(toks, p)?;
    let mut end = then_block.span;
    let mut q = p2;
    let mut else_block: Option<Block> = None;
    if peek_is(toks, q, &TokenKind::Keyword(Keyword::Else)) {
        if peek_is(toks, q + 1, &TokenKind::Keyword(Keyword::If)) {
            let nested_start = toks[q + 1].span;
            let (nested, q3) = parse_if(toks, q + 1)?;
            let nested_end = if q3 > 0 && q3 - 1 < toks.len() { toks[q3 - 1].span } else { nested_start };
            let nspan = if nested_start.start <= nested_end.end {
                Span::new(nested_start.start, nested_end.end)
            } else {
                nested_start
            };
            end = nspan;
            let mut stmts: Vec<Stmt> = Vec::new();
            let ghost nv = nested;
            stmts.push(nested);
            proof {
                lemma_stmt_views_push(Seq::empty(), nv);
                assert(Seq::<Stmt>::empty().push(nv) =~= stmts@);
                assert(stmt_views(Seq::<Stmt>::empty()) =~= Seq::<StmtV>::empty());
            }
            else_block = Some(Block { stmts, span: nspan });
            q = q3;
        } else {
            let (b, q3) = parse_block(toks, q + 1)?;
            end = b.span;
            else_block = Some(b);
            q = q3;
        }
    }
    Ok((Stmt::If { cond, then_block, else_block, span: start.merge(&end) }, q))
}

fn parse_let(toks: &Vec<Token>, pos: usize) -> (r: Result<(Stmt, usize), Diagnostic>)
    requires
        stream_wf(toks@),
        kind_at(toks@, pos as int) == TokenKind::Keyword(Keyword::Let),
    ensures
        parse_err(r),
        r is Ok ==> pos < r->Ok_0.1 <= toks@.len(),
        stmt_res(r, let_g(toks@, pos as int)),
{
    let start = toks[pos].span;
    let mut p = pos + 1;
    let mutable = if peek_is(toks, p, &TokenKind::Keyword(Keyword::Mut)) {
        p = p + 1;
        true
    } else {
        false
    };
    let (name, _, p2) = expect_ident(toks, p, "a binding name")?;
    p = p2;
    let mut ty: Option<TypeExpr> = None;
    if peek_is(toks, p, &TokenKind::Colon) {
        let (t, q) = parse_type(toks, p + 1)?;
        ty = Some(t);
        p = q;
    }
    let (_, p3) = expect(toks, p, &TokenKind::Eq, "`=` in the `let` binding")?;
    let (value, p4) = expression(toks, p3)?;
    let (end, p5) = expect(toks, p4, &TokenKind::Semicolon, "`;` after the `let` binding")?;
    Ok((Stmt::Let { name, mutable, ty, value, span: start.merge(&end) }, p5))
}

fn parse_return(toks: &Vec<Token>, pos: usize) -> (r: Result<(Stmt, usize), Diagnostic>)
    requires
        stream_wf(toks@),
        kind_at(toks@, pos as int) == TokenKind::Keyword(Keyword::Return),
    ensures
        parse_err(r),
        r is Ok ==> pos < r->Ok_0.1 <= toks@.len(),
        stmt_res(r, return_g(toks@, pos as int)),
{
    let start = toks[pos].span;
    if peek_is(toks, pos + 1, &TokenKind::Semicolon) {
        let end = toks[pos + 1].span;
        return Ok((Stmt::Return { value: None, span: start.merge(&end) }, pos + 2));
    }
    let (value, p) = expression(toks, pos + 1)?;
    let (end, p2) = expect(toks, p, &TokenKind::Semicolon, "`;` after the `return` value")?;
    Ok((Stmt::Return { value: Some(value), span: start.merge(&end) }, p2))
}

// --- Items ------------------------------------------------------------------

fn parse_ident_list(toks: &Vec<Token>, pos: usize, close: &TokenKind, what: &str) -> (r: Result<(Vec<(String, Span)>, usize), Diagnostic>)
    requires
        stream_wf(toks@),
        pos <= toks@.len(),
        !(*close is Eof),
    ensures
        parse_err(r),
        r is Ok ==> pos <= r->Ok_0.1 <= toks@.len()
            && forall|k: int| #![trigger r->Ok_0.0@[k]] 0 <= k < r->Ok_0.0@.len() ==> r->Ok_0.0@[k].1.wf(),
        match (r, names_g(toks@, pos as int, *close, what@)) {
            (Ok((ns, q)), Ok((vs, q2))) => names_view2(ns@) == vs && q as int == q2,
            (Err(d), Err(e)) => d@ == e,
            _ => false,
        },
{
    let mut out: Vec<(String, Span)> = Vec::new();
    let mut p = pos;
    assert(names_view2(out@) =~= Seq::<(Seq<char>, Span)>::empty());
    if peek_is(toks, p, close) {
        return Ok((out, p));
    }
    let ghost full = names_list_g(toks@, pos as int, what@);
    loop
        invariant_except_break
            match names_list_g(toks@, p as int, what@) {
                Err(d) => full == Err::<(Seq<(Seq<char>, Span)>, int), crate::grammar::PDiag>(d),
                Ok((ts, r)) => full == Ok::<(Seq<(Seq<char>, Span)>, int), crate::grammar::PDiag>((names_view2(out@) + ts, r)),
            },
        invariant
            stream_wf(toks@),
            pos <= p <= toks@.len(),
            full == names_list_g(toks@, pos as int, what@),
            full == names_g(toks@, pos as int, *close, what@),
            forall|k: int| #![trigger out@[k]] 0 <= k < out@.len() ==> out@[k].1.wf(),
        ensures
            full == Ok::<(Seq<(Seq<char>, Span)>, int), crate::grammar::PDiag>((names_view2(out@), p as int)),
            full == names_g(toks@, pos as int, *close, what@),
            pos <= p <= toks@.len(),
            forall|k: int| #![trigger out@[k]] 0 <= k < out@.len() ==> out@[k].1.wf(),
        decreases toks@.len() - p,
    {
        let (name, span, q) = match expect_ident(toks, p, what) {
            Ok(x) => x,
            Err(d) => {
                proof {
                    assert(names_list_g(toks@, p as int, what@) == Err::<(Seq<(Seq<char>, Span)>, int), crate::grammar::PDiag>(d@));
                }
                return Err(d);
            },
        };
        let ghost ov = out@;
        let ghost nm = name@;
        out.push((name, span));
        proof {
            assert(names_view2(out@) =~= names_view2(ov).push((nm, span)));
        }
        if peek_is(toks, q, &TokenKind::Comma) {
            proof {
                match names_list_g(toks@, q + 1, what@) {
                    Err(d) => {},
                    Ok((ts, r)) => {
                        assert(names_view2(out@) + ts =~= names_view2(ov) + (seq![(nm, span)] + ts));
                    },
                }
            }
            p = q + 1;
        } else {
            proof {
                assert(names_view2(out@) =~= names_view2(ov) + seq![(nm, span)]);
            }
            p = q;
            break;
        }
    }
    Ok((out, p))
}

/// Parse comma-separated parameters, at least one.
fn parse_params(toks: &Vec<Token>, pos: usize) -> (r: Result<(Vec<Param>, usize), Diagnostic>)
    requires
        stream_wf(toks@),
        pos <= toks@.len(),
    ensures
        parse_err(r),
        r is Ok ==> pos < r->Ok_0.1 <= toks@.len(),
        match (r, params_g(toks@, pos as int)) {
            (Ok((ps, q)), Ok((vs, q2))) => ps@.map_values(|x: Param| param_view(x)) == vs && q as int == q2,
            (Err(d), Err(e)) => d@ == e,
            _ => false,
        },
{
    let ghost full = params_g(toks@, pos as int);
    let mut p = pos;
    let mut params: Vec<Param> = Vec::new();
    assert(params@.map_values(|x: Param| param_view(x)) =~= Seq::<ParamV>::empty());
    loop
        invariant_except_break
            match params_g(toks@, p as int) {
                Err(d) => full == Err::<(Seq<ParamV>, int), crate::grammar::PDiag>(d),
                Ok((ts, r)) => full == Ok::<(Seq<ParamV>, int), crate::grammar::PDiag>((params@.map_values(|x: Param| param_view(x)) + ts, r)),
            },
        invariant
            stream_wf(toks@),
            pos <= p <= toks@.len(),
            full == params_g(toks@, pos as int),
        ensures
            full == Ok::<(Seq<ParamV>, int), crate::grammar::PDiag>((params@.map_values(|x: Param| param_view(x)), p as int)),
            pos < p <= toks@.len(),
        decreases toks@.len() - p,
    {
        let (pname, pspan, q) = expect_ident(toks, p, "a parameter name")?;
        let (_, q2) = expect(toks, q, &TokenKind::Colon, "`:`")?;
        let (ty, q3) = parse_type(toks, q2)?;
        let span = pspan.merge(&ty.span);
        let prm = Param { name: pname, ty, span };
        let ghost pv = params@;
        let ghost pr = prm;
        params.push(prm);
        proof {
            assert(params@.map_values(|x: Param| param_view(x)) =~= pv.map_values(|x: Param| param_view(x)).push(param_view(pr)));
        }
        if peek_is(toks, q3, &TokenKind::Comma) {
            proof {
                match params_g(toks@, q3 + 1) {
                    Err(d) => {},
                    Ok((ts, r)) => {
                        assert(params@.map_values(|x: Param| param_view(x)) + ts =~= pv.map_values(|x: Param| param_view(x)) + (seq![
                            param_view(pr),
                        ] + ts));
                    },
                }
            }
            p = q3 + 1;
        } else {
            proof {
                assert(params@.map_values(|x: Param| param_view(x)) =~= pv.map_values(|x: Param| param_view(x)) + seq![param_view(pr)]);
            }
            p = q3;
            break;
        }
    }
    Ok((params, p))
}

/// Parse the clauses of a signature: `uses { .. }`, `requires e`, `ensures e`.
#[verifier::rlimit(60)]
fn parse_clauses(toks: &Vec<Token>, pos: usize) -> (r: Result<(EffectSet, Vec<Contract>, Vec<Contract>, usize), Diagnostic>)
    requires
        stream_wf(toks@),
        pos <= toks@.len(),
    ensures
        parse_err(r),
        r is Ok ==> pos <= r->Ok_0.3 <= toks@.len(),
        match (r, clauses_g(toks@, pos as int)) {
            (Ok((es, rq, en, q)), Ok((ev, sp, rqv, env, q2))) => {
                &&& es.effects@.map_values(|e: Effect| (e.name@, e.span)) == ev
                &&& es.span == sp
                &&& rq@.map_values(|c: Contract| contract_view(c)) == rqv
                &&& en@.map_values(|c: Contract| contract_view(c)) == env
                &&& q as int == q2
            },
            (Err(d), Err(e)) => d@ == e,
            _ => false,
        },
{
    let ghost full = clauses_g(toks@, pos as int);
    let mut p = pos;
    let mut effects = EffectSet { effects: Vec::new(), span: None };
    let mut reqs: Vec<Contract> = Vec::new();
    let mut ens: Vec<Contract> = Vec::new();
    assert(effects.effects@.map_values(|e: Effect| (e.name@, e.span)) =~= Seq::<(Seq<char>, Span)>::empty());
    assert(reqs@.map_values(|c: Contract| contract_view(c)) =~= Seq::<ContractV>::empty());
    assert(ens@.map_values(|c: Contract| contract_view(c)) =~= Seq::<ContractV>::empty());
    loop
        invariant_except_break
            match clauses_g(toks@, p as int) {
                Err(d) => full == Err::<(Seq<(Seq<char>, Span)>, Option<Span>, Seq<ContractV>, Seq<ContractV>, int), crate::grammar::PDiag>(d),
                Ok((ev, sp, rqv, env, r)) => full == Ok::<(Seq<(Seq<char>, Span)>, Option<Span>, Seq<ContractV>, Seq<ContractV>, int), crate::grammar::PDiag>((
                    effects.effects@.map_values(|e: Effect| (e.name@, e.span)) + ev,
                    later_span(sp, effects.span),
                    reqs@.map_values(|c: Contract| contract_view(c)) + rqv,
                    ens@.map_values(|c: Contract| contract_view(c)) + env,
                    r,
                )),
            },
        invariant
            stream_wf(toks@),
            pos <= p <= toks@.len(),
            full == clauses_g(toks@, pos as int),
        ensures
            full == Ok::<(Seq<(Seq<char>, Span)>, Option<Span>, Seq<ContractV>, Seq<ContractV>, int), crate::grammar::PDiag>((
                effects.effects@.map_values(|e: Effect| (e.name@, e.span)),
                effects.span,
                reqs@.map_values(|c: Contract| contract_view(c)),
                ens@.map_values(|c: Contract| contract_view(c)),
                p as int,
            )),
            pos <= p <= toks@.len(),
        decreases toks@.len() - p,
    {
        let ghost ev0 = effects.effects@.map_values(|e: Effect| (e.name@, e.span));
        let ghost rq0 = reqs@.map_values(|c: Contract| contract_view(c));
        let ghost en0 = ens@.map_values(|c: Contract| contract_view(c));
        if peek_is(toks, p, &TokenKind::Keyword(Keyword::Uses)) {
            let ustart = toks[p].span;
            let (_, q) = expect(toks, p + 1, &TokenKind::LBrace, "`{` after `uses`")?;
            let (names, q2) = parse_ident_list(toks, q, &TokenKind::RBrace, "an effect name")?;
            let (uend, q3) = expect(toks, q2, &TokenKind::RBrace, "`}` to close the effect set")?;
            let mut i: usize = 0;
            while i < names.len()
                invariant
                    0 <= i <= names@.len(),
                    effects.effects@.map_values(|e: Effect| (e.name@, e.span)) == ev0 + names_view2(names@).subrange(0, i as int),
                decreases names@.len() - i,
            {
                let ghost eb = effects.effects@;
                effects.effects.push(Effect { name: copy_string(&names[i].0), span: names[i].1 });
                proof {
                    assert(effects.effects@.map_values(|e: Effect| (e.name@, e.span)) =~= eb.map_values(|e: Effect| (e.name@, e.span)).push(
                        names_view2(names@)[i as int],
                    ));
                    assert(names_view2(names@).subrange(0, i + 1) =~= names_view2(names@).subrange(0, i as int).push(names_view2(names@)[i as int]));
                }
                i = i + 1;
            }
            proof {
                assert(names_view2(names@).subrange(0, names@.len() as int) =~= names_view2(names@));
                match clauses_g(toks@, q3 as int) {
                    Err(d) => {},
                    Ok((ev, sp, rqv, env, r)) => {
                        assert(ev0 + names_view2(names@) + ev =~= ev0 + (names_view2(names@) + ev));
                    },
                }
            }
            effects.span = Some(ustart.merge(&uend));
            p = q3;
        } else if peek_is(toks, p, &TokenKind::Keyword(Keyword::Requires)) {
            let cstart = toks[p].span;
            let (pred, q) = expression(toks, p + 1)?;
            let span = cstart.merge(&pred.span());
            let c = Contract { predicate: pred, span };
            let ghost rb = reqs@;
            let ghost cv = c;
            reqs.push(c);
            proof {
                assert(reqs@.map_values(|c: Contract| contract_view(c)) =~= rq0.push(contract_view(cv)));
                match clauses_g(toks@, q as int) {
                    Err(d) => {},
                    Ok((ev, sp, rqv, env, r)) => {
                        assert(rq0.push(contract_view(cv)) + rqv =~= rq0 + (seq![contract_view(cv)] + rqv));
                    },
                }
            }
            p = q;
        } else if peek_is(toks, p, &TokenKind::Keyword(Keyword::Ensures)) {
            let cstart = toks[p].span;
            let (pred, q) = expression(toks, p + 1)?;
            let span = cstart.merge(&pred.span());
            let c = Contract { predicate: pred, span };
            let ghost cv = c;
            ens.push(c);
            proof {
                assert(ens@.map_values(|c: Contract| contract_view(c)) =~= en0.push(contract_view(cv)));
                match clauses_g(toks@, q as int) {
                    Err(d) => {},
                    Ok((ev, sp, rqv, env, r)) => {
                        assert(en0.push(contract_view(cv)) + env =~= en0 + (seq![contract_view(cv)] + env));
                    },
                }
            }
            p = q;
        } else {
            proof {
                assert(ev0 + Seq::<(Seq<char>, Span)>::empty() =~= ev0);
                assert(rq0 + Seq::<ContractV>::empty() =~= rq0);
                assert(en0 + Seq::<ContractV>::empty() =~= en0);
            }
            break;
        }
    }
    Ok((effects, reqs, ens, p))
}

fn parse_function(toks: &Vec<Token>, pos: usize, exported: bool) -> (r: Result<(Function, usize), Diagnostic>)
    requires
        stream_wf(toks@),
        pos <= toks@.len(),
    ensures
        parse_err(r),
        r is Ok ==> pos < r->Ok_0.1 <= toks@.len(),
        match (r, function_g(toks@, pos as int, exported)) {
            (Ok((f, q)), Ok((fv, q2))) => function_view(f) == fv && q as int == q2,
            (Err(d), Err(e)) => d@ == e,
            _ => false,
        },
{
    let (start, p0) = expect(toks, pos, &TokenKind::Keyword(Keyword::Fn), "`fn`")?;
    let (name, _, p1) = expect_ident(toks, p0, "a function name")?;
    let (_, p) = expect(toks, p1, &TokenKind::LParen, "`(`")?;
    let mut params: Vec<Param> = Vec::new();
    let mut pp = p;
    if !peek_is(toks, p, &TokenKind::RParen) {
        let (ps, q) = parse_params(toks, p)?;
        params = ps;
        pp = q;
    } else {
        assert(params@.map_values(|x: Param| param_view(x)) =~= Seq::<ParamV>::empty());
    }
    let (_, p2) = expect(toks, pp, &TokenKind::RParen, "`)`")?;
    let mut p3 = p2;
    let mut return_type: Option<TypeExpr> = None;
    if peek_is(toks, p2, &TokenKind::Arrow) {
        let (t, q) = parse_type(toks, p2 + 1)?;
        return_type = Some(t);
        p3 = q;
    }
    let (effects, reqs, ens, p4) = parse_clauses(toks, p3)?;
    let sig_end = toks[p4 - 1].span;
    let (body, p5) = parse_block(toks, p4)?;
    let span = start.merge(&body.span);
    let sig_span = if start.start <= sig_end.end { Span::new(start.start, sig_end.end) } else { start };
    let signature = Signature { name, params, return_type, effects, requires: reqs, ensures: ens, span: sig_span };
    Ok((Function { exported, signature, body, span }, p5))
}

/// Parse `|`-separated variants, at least one.
fn parse_variants(toks: &Vec<Token>, pos: usize) -> (r: Result<(Vec<Variant>, usize), Diagnostic>)
    requires
        stream_wf(toks@),
        pos <= toks@.len(),
    ensures
        parse_err(r),
        r is Ok ==> pos < r->Ok_0.1 <= toks@.len()
            && forall|k: int| #![trigger r->Ok_0.0@[k]] 0 <= k < r->Ok_0.0@.len() ==> r->Ok_0.0@[k].span.wf(),
        match (r, variants_g(toks@, pos as int)) {
            (Ok((vs, q)), Ok((vv, q2))) => vs@.map_values(|v: Variant| variant_view(v)) == vv && q as int == q2,
            (Err(d), Err(e)) => d@ == e,
            _ => false,
        },
{
    let ghost full = variants_g(toks@, pos as int);
    let mut p = pos;
    let mut variants: Vec<Variant> = Vec::new();
    assert(variants@.map_values(|v: Variant| variant_view(v)) =~= Seq::<VariantV>::empty());
    loop
        invariant_except_break
            match variants_g(toks@, p as int) {
                Err(d) => full == Err::<(Seq<VariantV>, int), crate::grammar::PDiag>(d),
                Ok((ts, r)) => full == Ok::<(Seq<VariantV>, int), crate::grammar::PDiag>((variants@.map_values(|v: Variant| variant_view(v)) + ts, r)),
            },
        invariant
            stream_wf(toks@),
            pos <= p <= toks@.len(),
            full == variants_g(toks@, pos as int),
            forall|k: int| #![trigger variants@[k]] 0 <= k < variants@.len() ==> variants@[k].span.wf(),
        ensures
            full == Ok::<(Seq<VariantV>, int), crate::grammar::PDiag>((variants@.map_values(|v: Variant| variant_view(v)), p as int)),
            pos < p <= toks@.len(),
            forall|k: int| #![trigger variants@[k]] 0 <= k < variants@.len() ==> variants@[k].span.wf(),
        decreases toks@.len() - p,
    {
        let (vname, vspan, q1) = expect_ident(toks, p, "a variant name")?;
        let mut fields: Vec<TypeExpr> = Vec::new();
        let mut vend = vspan;
        let mut q = q1;
        if peek_is(toks, q1, &TokenKind::LParen) {
            let mut q2 = q1 + 1;
            if !peek_is(toks, q1 + 1, &TokenKind::RParen) {
                let (ts, qq) = parse_types(toks, q1 + 1)?;
                fields = ts;
                q2 = qq;
            } else {
                assert(tex_views(fields@) =~= Seq::<TexV>::empty());
            }
            let (e, q3) = expect(toks, q2, &TokenKind::RParen, "`)` to close the variant fields")?;
            vend = e;
            q = q3;
        } else {
            assert(tex_views(fields@) =~= Seq::<TexV>::empty());
        }
        let span = vspan.merge(&vend);
        let v = Variant { name: vname, fields, span };
        let ghost vb = variants@;
        let ghost vv = v;
        variants.push(v);
        proof {
            assert(variants@.map_values(|v: Variant| variant_view(v)) =~= vb.map_values(|v: Variant| variant_view(v)).push(variant_view(vv)));
        }
        if peek_is(toks, q, &TokenKind::Pipe) {
            proof {
                match variants_g(toks@, q + 1) {
                    Err(d) => {},
                    Ok((ts, r)) => {
                        assert(variants@.map_values(|v: Variant| variant_view(v)) + ts =~= vb.map_values(|v: Variant| variant_view(v)) + (seq![
                            variant_view(vv),
                        ] + ts));
                    },
                }
            }
            p = q + 1;
        } else {
            proof {
                assert(variants@.map_values(|v: Variant| variant_view(v)) =~= vb.map_values(|v: Variant| variant_view(v)) + seq![variant_view(vv)]);
            }
            p = q;
            break;
        }
    }
    Ok((variants, p))
}

fn parse_type_decl(toks: &Vec<Token>, pos: usize, exported: bool) -> (r: Result<(TypeDecl, usize), Diagnostic>)
    requires
        stream_wf(toks@),
        pos < toks@.len(),
    ensures
        parse_err(r),
        r is Ok ==> pos < r->Ok_0.1 <= toks@.len(),
        match (r, type_decl_g(toks@, pos as int, exported)) {
            (Ok((d, q)), Ok((dv, q2))) => decl_view(d) == dv && q as int == q2,
            (Err(d), Err(e)) => d@ == e,
            _ => false,
        },
{
    let start = toks[pos].span;
    let (name, _, p0) = expect_ident(toks, pos + 1, "a type name")?;
    let mut p = p0;
    let mut generics: Vec<String> = Vec::new();
    if peek_is(toks, p0, &TokenKind::Lt) {
        let (names, q) = parse_ident_list(toks, p0 + 1, &TokenKind::Gt, "a generic parameter name")?;
        let (_, q2) = expect(toks, q, &TokenKind::Gt, "`>` to close the generic parameters")?;
        let mut i: usize = 0;
        while i < names.len()
            invariant
                0 <= i <= names@.len(),
                generics@.len() == i,
                generics@.map_values(|g: String| g@) == names_view2(names@).map_values(|x: (Seq<char>, Span)| x.0).subrange(0, i as int),
            decreases names@.len() - i,
        {
            let ghost gb = generics@;
            let ghost nv = names_view2(names@).map_values(|x: (Seq<char>, Span)| x.0);
            generics.push(copy_string(&names[i].0));
            proof {
                assert(nv[i as int] == names@[i as int].0@);
                assert(generics@.map_values(|g: String| g@) =~= gb.map_values(|g: String| g@).push(names@[i as int].0@));
                assert(nv.subrange(0, i + 1) =~= nv.subrange(0, i as int).push(nv[i as int]));
            }
            i = i + 1;
        }
        proof {
            assert(names_view2(names@).map_values(|x: (Seq<char>, Span)| x.0).subrange(0, names@.len() as int) =~= names_view2(names@).map_values(
                |x: (Seq<char>, Span)| x.0,
            ));
        }
        p = q2;
    } else {
        assert(generics@.map_values(|g: String| g@) =~= Seq::<Seq<char>>::empty());
    }
    let (_, q) = expect(toks, p, &TokenKind::Eq, "`=` in the type declaration")?;
    let (variants, p2) = parse_variants(toks, q)?;
    let ghost vv = variants@.map_values(|v: Variant| variant_view(v));
    let end = if variants.len() > 0 { variants[variants.len() - 1].span } else { start };
    proof {
        if variants@.len() > 0 {
            assert(vv.last().span == variants@[variants@.len() - 1].span);
        }
    }
    Ok((TypeDecl { exported, name, generics, variants, span: start.merge(&end) }, p2))
}

#[verifier::rlimit(60)]
fn parse_item(toks: &Vec<Token>, pos: usize) -> (r: Result<(Item, usize), Diagnostic>)
    requires
        stream_wf(toks@),
        pos <= toks@.len(),
    ensures
        parse_err(r),
        r is Ok ==> pos < r->Ok_0.1 <= toks@.len(),
        match (r, item_g(toks@, pos as int)) {
            (Ok((it, q)), Ok((iv, q2))) => item_view(it) == iv && q as int == q2,
            (Err(d), Err(e)) => d@ == e,
            _ => false,
        },
{
    reveal(item_g);
    let mut p = pos;
    let mut exported = false;
    if peek_word(toks, p, "export") {
        exported = true;
        p = p + 1;
    }
    if peek_is(toks, p, &TokenKind::Keyword(Keyword::Fn)) {
        let (f, q) = parse_function(toks, p, exported)?;
        return Ok((Item::Function(f), q));
    }
    if peek_word(toks, p, "type") {
        let (t, q) = parse_type_decl(toks, p, exported)?;
        return Ok((Item::Type(t), q));
    }
    proof {
        reveal_strlit("P0002");
    }
    Err(error_here(toks, p, "P0002", "expected an item (a `fn` or `type` declaration)"))
}

#[verifier::rlimit(60)]
fn parse_module(toks: &Vec<Token>) -> (r: (Module, Vec<Diagnostic>))
    requires
        stream_wf(toks@),
    ensures
        r.1@.len() <= 1,
        forall|k: int| #![trigger r.1@[k]] 0 <= k < r.1@.len() ==> r.1@[k].severity == Severity::Error && r.1@[k].blame is None,
        module_view(r.0) == module_g(toks@).0,
        r.1@.map_values(|d: Diagnostic| d@) == module_g(toks@).1,
{
    let ghost full = module_from(toks@, 0);
    let mut imports: Vec<Import> = Vec::new();
    let mut items: Vec<Item> = Vec::new();
    let mut failure: Option<Diagnostic> = None;
    let mut p: usize = 0;
    assert(imports@.map_values(|i: Import| (i.name@, i.span)) =~= Seq::<(Seq<char>, Span)>::empty());
    assert(items@.map_values(|i: Item| item_view(i)) =~= Seq::<ItemV>::empty());
    while failure.is_none() && !at_end(toks, p)
        invariant
            stream_wf(toks@),
            p <= toks@.len(),
            failure matches Some(d) ==> d.severity == Severity::Error && d.blame is None,
            full == module_from(toks@, 0),
            failure is None ==> {
                let (is, its, f) = module_from(toks@, p as int);
                full == (imports@.map_values(|i: Import| (i.name@, i.span)) + is, items@.map_values(|i: Item| item_view(i)) + its, f)
            },
            failure matches Some(d) ==> full == (imports@.map_values(|i: Import| (i.name@, i.span)), items@.map_values(|i: Item| item_view(i)), Some(d@)),
        decreases toks@.len() - p + (if failure is None { 1int } else { 0int }),
    {
        let ghost iv0 = imports@.map_values(|i: Import| (i.name@, i.span));
        let ghost itv0 = items@.map_values(|i: Item| item_view(i));
        if peek_word(toks, p, "import") {
            let start = toks[p].span;
            match expect_ident(toks, p + 1, "a module name after `import`") {
                Ok((name, nspan, q)) => {
                    let ghost nm = name@;
                    let im = Import { name, span: start.merge(&nspan) };
                    imports.push(im);
                    proof {
                        assert(imports@.map_values(|i: Import| (i.name@, i.span)) =~= iv0.push((nm, merge_t(start, nspan))));
                    }
                    p = q;
                    if peek_is(toks, p, &TokenKind::Semicolon) {
                        p = p + 1;
                    }
                    proof {
                        let (is, its, f) = module_from(toks@, p as int);
                        assert(iv0.push((nm, merge_t(start, nspan))) + is =~= iv0 + (seq![(nm, merge_t(start, nspan))] + is));
                    }
                },
                Err(d) => {
                    proof {
                        assert(iv0 + Seq::<(Seq<char>, Span)>::empty() =~= iv0);
                        assert(itv0 + Seq::<ItemV>::empty() =~= itv0);
                    }
                    failure = Some(d);
                },
            }
        } else {
            match parse_item(toks, p) {
                Ok((item, q)) => {
                    let ghost it = item;
                    items.push(item);
                    proof {
                        assert(items@.map_values(|i: Item| item_view(i)) =~= itv0.push(item_view(it)));
                        let (is, its, f) = module_from(toks@, q as int);
                        assert(itv0.push(item_view(it)) + its =~= itv0 + (seq![item_view(it)] + its));
                    }
                    p = q;
                },
                Err(d) => {
                    proof {
                        assert(iv0 + Seq::<(Seq<char>, Span)>::empty() =~= iv0);
                        assert(itv0 + Seq::<ItemV>::empty() =~= itv0);
                    }
                    failure = Some(d);
                },
            }
        }
    }
    proof {
        if failure is None {
            assert(imports@.map_values(|i: Import| (i.name@, i.span)) + Seq::<(Seq<char>, Span)>::empty() =~= imports@.map_values(
                |i: Import| (i.name@, i.span),
            ));
            assert(items@.map_values(|i: Item| item_view(i)) + Seq::<ItemV>::empty() =~= items@.map_values(|i: Item| item_view(i)));
        }
    }
    let mut diagnostics: Vec<Diagnostic> = Vec::new();
    match failure {
        Some(d) => diagnostics.push(d),
        None => {},
    }
    assert(diagnostics@.map_values(|d: Diagnostic| d@) =~= module_g(toks@).1);
    (Module { imports, items }, diagnostics)
}

proof fn lemma_lexed_stream_wf(toks: Seq<Token>, total: nat)
    requires
        tokens_wf(toks, total),
        toks.len() <= total + 1,
        total + 2 <= usize::MAX,
    ensures
        stream_wf(toks),
{
    assert forall|k: int| #![trigger toks[k]] 0 <= k < toks.len() implies toks[k].span.wf() by {
        assert(toks[k].span.start <= toks[k].span.end);
    }
}

/// Parse a whole source file into a module. Lexing diagnostics come first,
/// then at most one parse diagnostic (parsing stops at its first error).
pub fn parse(source: &str) -> (r: ParseResult)
    requires
        byte_len(source@) + 2 <= usize::MAX,
    ensures
        forall|k: int| #![trigger r.diagnostics@[k]] 0 <= k < r.diagnostics@.len() ==> r.diagnostics@[k].severity
            == crate::diagnostic::Severity::Error && r.diagnostics@[k].blame is None,
        exists|toks: Seq<Token>| #![trigger module_g(toks)]
            {
                &&& lexed_as(toks, source@)
                &&& tokens_wf(toks, byte_len(source@))
                &&& module_view(r.module) == module_g(toks).0
                &&& r.diagnostics@.map_values(|d: Diagnostic| d@) == lex_from(source@, 0).1 + module_g(toks).1
            },
{
    let lexed = lex(source);
    proof { lemma_lexed_stream_wf(lexed.tokens@, byte_len(source@)); }
    let ghost toks = lexed.tokens@;
    let (module, parse_diags) = parse_module(&lexed.tokens);
    let mut diagnostics = lexed.diagnostics;
    let ghost ld = diagnostics@;
    let mut pd = parse_diags;
    let ghost pdv = pd@;
    diagnostics.append(&mut pd);
    proof {
        assert forall|k: int| #![trigger diagnostics@[k]] 0 <= k < diagnostics@.len() implies diagnostics@[k].severity
            == crate::diagnostic::Severity::Error && diagnostics@[k].blame is None by {
            if k < ld.len() {
                assert(diagnostics@[k] == ld[k]);
                assert(ld[k]@ == lex_from(source@, 0).1[k]);
            } else {
                assert(diagnostics@[k] == pdv[k - ld.len()]);
            }
        }
        assert(diagnostics@.map_values(|d: Diagnostic| d@) =~= lex_from(source@, 0).1 + module_g(toks).1);
        assert(module_view(module) == module_g(toks).0);
    }
    ParseResult { module, diagnostics }
}

/// Parse a single expression that must be followed by end of input.
pub fn parse_expr(source: &str) -> (r: Result<Expr, Vec<Diagnostic>>)
    requires
        byte_len(source@) + 2 <= usize::MAX,
    ensures
        r is Err ==> r->Err_0@.len() > 0,
        r is Err ==> forall|k: int| #![trigger r->Err_0@[k]] 0 <= k < r->Err_0@.len() ==> r->Err_0@[k].severity
            == Severity::Error && r->Err_0@[k].blame is None,
        lex_from(source@, 0).1.len() > 0 ==> r is Err && r->Err_0@.map_values(|d: Diagnostic| d@) == lex_from(source@, 0).1,
        lex_from(source@, 0).1.len() == 0 ==> exists|toks: Seq<Token>| #![trigger expr_input_g(toks)]
            {
                &&& lexed_as(toks, source@)
                &&& tokens_wf(toks, byte_len(source@))
                &&& match r {
                    Ok(e) => expr_input_g(toks) == Ok::<ExprV, Seq<PDiag>>(expr_view(e)),
                    Err(ds) => expr_input_g(toks) == Err::<ExprV, Seq<PDiag>>(ds@.map_values(|d: Diagnostic| d@)),
                }
            },
{
    let lexed = lex(source);
    if lexed.diagnostics.len() > 0 {
        proof {
            assert(lexed.diagnostics@.map_values(|d: Diagnostic| d@) =~= lex_from(source@, 0).1);
            assert forall|k: int| #![trigger lexed.diagnostics@[k]] 0 <= k < lexed.diagnostics@.len() implies lexed.diagnostics@[k].severity
                == Severity::Error && lexed.diagnostics@[k].blame is None by {
                assert(lexed.diagnostics@[k]@ == lex_from(source@, 0).1[k]);
            }
        }
        return Err(lexed.diagnostics);
    }
    proof { lemma_lexed_stream_wf(lexed.tokens@, byte_len(source@)); }
    let toks = &lexed.tokens;
    let ghost tv = toks@;
    match expression(toks, 0) {
        Ok((expr, p)) => {
            if at_end(toks, p) {
                proof { assert(expr_input_g(tv) == Ok::<ExprV, Seq<PDiag>>(expr_view(expr))); }
                Ok(expr)
            } else {
                let mut diags: Vec<Diagnostic> = Vec::new();
                proof { reveal_strlit("P0003"); }
                diags.push(error_here(toks, p, "P0003", "unexpected trailing input after expression"));
                proof {
                    assert(diags@.map_values(|d: Diagnostic| d@) =~= seq![
                        ("P0003"@, span_at(tv, p as int), "unexpected trailing input after expression"@),
                    ]);
                    assert(expr_input_g(tv) == Err::<ExprV, Seq<PDiag>>(diags@.map_values(|d: Diagnostic| d@)));
                }
                Err(diags)
            }
        },
        Err(d) => {
            let mut diags: Vec<Diagnostic> = Vec::new();
            diags.push(d);
            proof {
                assert(diags@.map_values(|d: Diagnostic| d@) =~= seq![d@]);
                assert(expr_input_g(tv) == Err::<ExprV, Seq<PDiag>>(diags@.map_values(|d: Diagnostic| d@)));
            }
            Err(diags)
        },
    }
}

} // verus!
