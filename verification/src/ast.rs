//! The abstract syntax tree: a plain, untyped tree whose nodes carry spans.

use vstd::prelude::*;
use crate::diagnostic::Blame;
use crate::span::Span;
use crate::text::copy_string;

verus! {

/// A literal value written directly in source.
#[derive(Debug, Clone, PartialEq, Eq)]
pub enum LiteralKind {
    /// An integer literal, e.g. `42`.
    Int(i64),
    /// A boolean literal, `true` or `false`.
    Bool(bool),
    /// A text literal, e.g. `"hello"`.
    Text(String),
}

/// A literal expression together with its source span.
#[derive(Debug, Clone, PartialEq, Eq)]
pub struct Literal {
    pub kind: LiteralKind,
    pub span: Span,
}

/// Unary operators.
#[derive(Debug, Clone, Copy, PartialEq, Eq, Structural)]
pub enum UnaryOp {
    /// Arithmetic negation, `-x`.
    Neg,
    /// Logical negation, `!x`.
    Not,
}

/// Binary operators. Precedence is reflected in the tree shape.
#[derive(Debug, Clone, Copy, PartialEq, Eq, Structural)]
pub enum BinaryOp {
    Add,
    Sub,
    Mul,
    Div,
    Rem,
    Eq,
    Ne,
    Lt,
    Le,
    Gt,
    Ge,
    And,
    Or,
}

/// An expression node.
#[derive(Debug, PartialEq, Eq)]
pub enum Expr {
    /// A literal value.
    Literal(Literal),
    /// A reference to a binding or function by name.
    Identifier { name: String, span: Span },
    /// A unary operation, e.g. `-x` or `!ok`.
    Unary { op: UnaryOp, operand: Box<Expr>, span: Span },
    /// A binary operation, e.g. `a + b`.
    Binary { op: BinaryOp, left: Box<Expr>, right: Box<Expr>, span: Span },
    /// A call, e.g. `f(a, b)` or `grant<Write>(root)`.
    Call { callee: Box<Expr>, type_args: Vec<TypeExpr>, args: Vec<Expr>, span: Span },
    /// A `match` over a scrutinee with pattern arms.
    Match { scrutinee: Box<Expr>, arms: Vec<MatchArm>, span: Span },
    /// A qualified member access, e.g. `math.add`.
    Member { base: Box<Expr>, name: String, span: Span },
}

/// One arm of a `match`: a pattern and the expression it selects.
#[derive(Debug, PartialEq, Eq)]
pub struct MatchArm {
    pub pattern: Pattern,
    pub body: Expr,
    pub span: Span,
}

/// A pattern in a `match` arm.
#[derive(Debug, PartialEq, Eq)]
pub enum Pattern {
    /// `_`, matching anything.
    Wildcard { span: Span },
    /// A bare name: a nullary variant if it names one, otherwise a binding.
    Ident { name: String, span: Span },
    /// A variant with sub-patterns, e.g. `Some(x)`.
    Variant { name: String, args: Vec<Pattern>, span: Span },
}

impl Expr {
    /// The span recorded on an expression node.
    pub open spec fn spec_span(self) -> Span {
        match self {
            Expr::Literal(lit) => lit.span,
            Expr::Identifier { span, .. } => span,
            Expr::Unary { span, .. } => span,
            Expr::Binary { span, .. } => span,
            Expr::Call { span, .. } => span,
            Expr::Match { span, .. } => span,
            Expr::Member { span, .. } => span,
        }
    }

    /// The source span covering this expression.
    pub fn span(&self) -> (s: Span)
        ensures
            s == self.spec_span(),
    {
        match self {
            Expr::Literal(lit) => lit.span,
            Expr::Identifier { span, .. } => *span,
            Expr::Unary { span, .. } => *span,
            Expr::Binary { span, .. } => *span,
            Expr::Call { span, .. } => *span,
            Expr::Match { span, .. } => *span,
            Expr::Member { span, .. } => *span,
        }
    }
}

/// A statement node.
#[derive(Debug, PartialEq, Eq)]
pub enum Stmt {
    /// A `let` binding; `mutable` records an explicit opt-in to rebinding.
    Let { name: String, mutable: bool, ty: Option<TypeExpr>, value: Expr, span: Span },
    /// An expression evaluated for its effect or value.
    Expr(Expr),
    /// A `return`, optionally carrying a value.
    Return { value: Option<Expr>, span: Span },
    /// An `if`, with an optional `else` block.
    If { cond: Expr, then_block: Block, else_block: Option<Block>, span: Span },
    /// A lowered contract check carrying the side a failure blames.
    Check { predicate: Expr, blame: Blame, span: Span },
}

/// A brace-delimited sequence of statements.
#[derive(Debug, PartialEq, Eq)]
pub struct Block {
    pub stmts: Vec<Stmt>,
    pub span: Span,
}

/// A type as written in source, e.g. `Int`, `Cap<Write>` or `fn(Int) -> Bool`
/// (head `fn`, arguments the parameter types followed by the return type).
#[derive(Debug, PartialEq, Eq)]
pub struct TypeExpr {
    pub name: String,
    pub args: Vec<TypeExpr>,
    pub span: Span,
}

/// A single function parameter.
#[derive(Debug, PartialEq, Eq)]
pub struct Param {
    pub name: String,
    pub ty: TypeExpr,
    pub span: Span,
}

/// One declared effect inside a `uses {...}` set.
#[derive(Debug, Clone, PartialEq, Eq)]
pub struct Effect {
    pub name: String,
    pub span: Span,
}

/// The `uses {...}` effect set declared by a signature.
#[derive(Debug, Clone, PartialEq, Eq)]
pub struct EffectSet {
    pub effects: Vec<Effect>,
    /// Span of the whole `uses {...}` clause, if one was written.
    pub span: Option<Span>,
}

impl Default for EffectSet {
    /// The empty effect set, with no clause written.
    fn default() -> (e: EffectSet)
        ensures
            e.effects@.len() == 0,
            e.span is None,
    {
        EffectSet { effects: Vec::new(), span: None }
    }
}

/// A single contract clause — the predicate of a `requires` or `ensures`.
#[derive(Debug, PartialEq, Eq)]
pub struct Contract {
    pub predicate: Expr,
    pub span: Span,
}

/// A function signature: name, parameters, return type, effects and contracts.
#[derive(Debug, PartialEq, Eq)]
pub struct Signature {
    pub name: String,
    pub params: Vec<Param>,
    pub return_type: Option<TypeExpr>,
    pub effects: EffectSet,
    /// Preconditions — a failed one blames the caller.
    pub requires: Vec<Contract>,
    /// Postconditions — a failed one blames the implementation.
    pub ensures: Vec<Contract>,
    pub span: Span,
}

/// A function declaration: a signature paired with a body.
#[derive(Debug, PartialEq, Eq)]
pub struct Function {
    /// Whether the function is `export`ed from its module.
    pub exported: bool,
    pub signature: Signature,
    pub body: Block,
    pub span: Span,
}

/// One variant of a sum type, with its positional payload types.
#[derive(Debug, PartialEq, Eq)]
pub struct Variant {
    pub name: String,
    pub fields: Vec<TypeExpr>,
    pub span: Span,
}

/// A sum-type declaration, e.g. `type Option<T> = Some(T) | None`.
#[derive(Debug, PartialEq, Eq)]
pub struct TypeDecl {
    pub exported: bool,
    pub name: String,
    pub generics: Vec<String>,
    pub variants: Vec<Variant>,
    pub span: Span,
}

/// An `import m` of another module.
#[derive(Debug, Clone, PartialEq, Eq)]
pub struct Import {
    pub name: String,
    pub span: Span,
}

/// A top-level item in a source file.
#[derive(Debug, PartialEq, Eq)]
pub enum Item {
    /// A function declaration.
    Function(Function),
    /// A sum-type declaration.
    Type(TypeDecl),
}

/// A whole parsed source file: its imports and its ordered top-level items.
#[derive(Debug, PartialEq, Eq)]
pub struct Module {
    pub imports: Vec<Import>,
    pub items: Vec<Item>,
}

impl Default for Module {
    /// The empty module.
    fn default() -> (m: Module)
        ensures
            m.imports@.len() == 0,
            m.items@.len() == 0,
    {
        Module { imports: Vec::new(), items: Vec::new() }
    }
}

// --- Deep sameness and copies ----------------------------------------------

/// Two literals of the same kind, value and span.
pub open spec fn same_literal(a: Literal, b: Literal) -> bool {
    a.span == b.span && match a.kind {
        LiteralKind::Int(x) => b.kind == LiteralKind::Int(x),
        LiteralKind::Bool(x) => b.kind == LiteralKind::Bool(x),
        LiteralKind::Text(s) => match b.kind {
            LiteralKind::Text(t) => s@ == t@,
            _ => false,
        },
    }
}

/// Two written types alike at every node (names, arguments and spans).
pub open spec fn same_texpr(a: TypeExpr, b: TypeExpr) -> bool
    decreases a, 1int,
{
    a.name@ == b.name@ && a.span == b.span && same_texprs(a.args@, b.args@)
}

/// Pairwise sameness of written types.
pub open spec fn same_texprs(xs: Seq<TypeExpr>, ys: Seq<TypeExpr>) -> bool
    decreases xs, 0int,
{
    if xs.len() != ys.len() {
        false
    } else if xs.len() == 0 {
        true
    } else {
        same_texprs(xs.subrange(0, xs.len() - 1), ys.subrange(0, ys.len() - 1)) && same_texpr(
            xs[xs.len() - 1],
            ys[ys.len() - 1],
        )
    }
}

/// Sameness of optional written types.
pub open spec fn same_opt_texpr(a: Option<TypeExpr>, b: Option<TypeExpr>) -> bool {
    match a {
        Some(x) => match b {
            Some(y) => same_texpr(x, y),
            None => false,
        },
        None => b is None,
    }
}

/// Two patterns alike at every node.
pub open spec fn same_pattern(a: Pattern, b: Pattern) -> bool
    decreases a, 1int,
{
    match a {
        Pattern::Wildcard { span } => b == Pattern::Wildcard { span },
        Pattern::Ident { name, span } => match b {
            Pattern::Ident { name: n2, span: s2 } => name@ == n2@ && span == s2,
            _ => false,
        },
        Pattern::Variant { name, args, span } => match b {
            Pattern::Variant { name: n2, args: a2, span: s2 } => name@ == n2@ && span == s2
                && same_patterns(args@, a2@),
            _ => false,
        },
    }
}

/// Pairwise sameness of patterns.
pub open spec fn same_patterns(xs: Seq<Pattern>, ys: Seq<Pattern>) -> bool
    decreases xs, 0int,
{
    if xs.len() != ys.len() {
        false
    } else if xs.len() == 0 {
        true
    } else {
        same_patterns(xs.subrange(0, xs.len() - 1), ys.subrange(0, ys.len() - 1)) && same_pattern(
            xs[xs.len() - 1],
            ys[ys.len() - 1],
        )
    }
}

/// Two expressions alike at every node (operators, names, literals, spans).
pub open spec fn same_expr(a: Expr, b: Expr) -> bool
    decreases a, 2int,
{
    match a {
        Expr::Literal(l1) => match b {
            Expr::Literal(l2) => same_literal(l1, l2),
            _ => false,
        },
        Expr::Identifier { name, span } => match b {
            Expr::Identifier { name: n2, span: s2 } => name@ == n2@ && span == s2,
            _ => false,
        },
        Expr::Unary { op, operand, span } => match b {
            Expr::Unary { op: o2, operand: x2, span: s2 } => op == o2 && span == s2 && same_expr(
                *operand,
                *x2,
            ),
            _ => false,
        },
        Expr::Binary { op, left, right, span } => match b {
            Expr::Binary { op: o2, left: l2, right: r2, span: s2 } => op == o2 && span == s2
                && same_expr(*left, *l2) && same_expr(*right, *r2),
            _ => false,
        },
        Expr::Call { callee, type_args, args, span } => match b {
            Expr::Call { callee: c2, type_args: t2, args: a2, span: s2 } => span == s2 && same_expr(
                *callee,
                *c2,
            ) && same_texprs(type_args@, t2@) && same_exprs(args@, a2@),
            _ => false,
        },
        Expr::Match { scrutinee, arms, span } => match b {
            Expr::Match { scrutinee: x2, arms: a2, span: s2 } => span == s2 && same_expr(
                *scrutinee,
                *x2,
            ) && same_arms(arms@, a2@),
            _ => false,
        },
        Expr::Member { base, name, span } => match b {
            Expr::Member { base: b2, name: n2, span: s2 } => name@ == n2@ && span == s2 && same_expr(
                *base,
                *b2,
            ),
            _ => false,
        },
    }
}

/// Pairwise sameness of expressions.
pub open spec fn same_exprs(xs: Seq<Expr>, ys: Seq<Expr>) -> bool
    decreases xs, 1int,
{
    if xs.len() != ys.len() {
        false
    } else if xs.len() == 0 {
        true
    } else {
        same_exprs(xs.subrange(0, xs.len() - 1), ys.subrange(0, ys.len() - 1)) && same_expr(
            xs[xs.len() - 1],
            ys[ys.len() - 1],
        )
    }
}

/// Pairwise sameness of match arms.
pub open spec fn same_arms(xs: Seq<MatchArm>, ys: Seq<MatchArm>) -> bool
    decreases xs, 1int,
{
    if xs.len() != ys.len() {
        false
    } else if xs.len() == 0 {
        true
    } else {
        proof {
            assert(decreases_to!(xs[xs.len() - 1] => xs[xs.len() - 1].body));
        }
        let a = xs[xs.len() - 1];
        let b = ys[ys.len() - 1];
        same_arms(xs.subrange(0, xs.len() - 1), ys.subrange(0, ys.len() - 1)) && a.span == b.span
            && same_pattern(a.pattern, b.pattern) && same_expr(a.body, b.body)
    }
}

/// Sameness of optional expressions.
pub open spec fn same_opt_expr(a: Option<Expr>, b: Option<Expr>) -> bool {
    match a {
        Some(x) => match b {
            Some(y) => same_expr(x, y),
            None => false,
        },
        None => b is None,
    }
}

/// Two statements alike at every node.
pub open spec fn same_stmt(a: Stmt, b: Stmt) -> bool
    decreases a, 1int,
{
    match a {
        Stmt::Let { name, mutable, ty, value, span } => match b {
            Stmt::Let { name: n2, mutable: m2, ty: t2, value: v2, span: s2 } => name@ == n2@
                && mutable == m2 && span == s2 && same_opt_texpr(ty, t2) && same_expr(value, v2),
            _ => false,
        },
        Stmt::Expr(e) => match b {
            Stmt::Expr(e2) => same_expr(e, e2),
            _ => false,
        },
        Stmt::Return { value, span } => match b {
            Stmt::Return { value: v2, span: s2 } => span == s2 && same_opt_expr(value, v2),
            _ => false,
        },
        Stmt::If { cond, then_block, else_block, span } => match b {
            Stmt::If { cond: c2, then_block: t2, else_block: e2, span: s2 } => span == s2
                && same_expr(cond, c2) && then_block.span == t2.span && same_stmts(
                then_block.stmts@,
                t2.stmts@,
            ) && match else_block {
                Some(x) => match e2 {
                    Some(y) => x.span == y.span && same_stmts(x.stmts@, y.stmts@),
                    None => false,
                },
                None => e2 is None,
            },
            _ => false,
        },
        Stmt::Check { predicate, blame, span } => match b {
            Stmt::Check { predicate: p2, blame: b2, span: s2 } => blame == b2 && span == s2
                && same_expr(predicate, p2),
            _ => false,
        },
    }
}

/// Pairwise sameness of statements.
pub open spec fn same_stmts(xs: Seq<Stmt>, ys: Seq<Stmt>) -> bool
    decreases xs, 0int,
{
    if xs.len() != ys.len() {
        false
    } else if xs.len() == 0 {
        true
    } else {
        same_stmts(xs.subrange(0, xs.len() - 1), ys.subrange(0, ys.len() - 1)) && same_stmt(
            xs[xs.len() - 1],
            ys[ys.len() - 1],
        )
    }
}

/// A copy of a type expression.
pub fn copy_type_expr(t: &TypeExpr) -> (r: TypeExpr)
    ensures
        same_texpr(r, *t),
    decreases t, 1int,
{
    TypeExpr { name: copy_string(&t.name), args: copy_type_exprs(&t.args), span: t.span }
}

/// A copy of a list of type expressions.
pub fn copy_type_exprs(v: &Vec<TypeExpr>) -> (r: Vec<TypeExpr>)
    ensures
        same_texprs(r@, v@),
    decreases v, 0int,
{
    let mut out: Vec<TypeExpr> = Vec::new();
    let n = v.len();
    let mut i: usize = 0;
    while i < n
        invariant
            n == v@.len(),
            i <= n,
            same_texprs(out@, v@.subrange(0, i as int)),
        decreases n - i,
    {
        let c = copy_type_expr(&v[i]);
        let ghost before = out@;
        out.push(c);
        assert(out@.subrange(0, i as int) =~= before);
        assert(v@.subrange(0, i + 1).subrange(0, i as int) =~= v@.subrange(0, i as int));
        i = i + 1;
    }
    assert(v@.subrange(0, n as int) =~= v@);
    out
}

/// A copy of an optional type expression.
pub fn copy_opt_type_expr(t: &Option<TypeExpr>) -> (r: Option<TypeExpr>)
    ensures
        same_opt_texpr(r, *t),
{
    match t {
        Some(x) => Some(copy_type_expr(x)),
        None => None,
    }
}

/// A copy of a pattern.
pub fn copy_pattern(p: &Pattern) -> (r: Pattern)
    ensures
        same_pattern(r, *p),
    decreases p, 1int,
{
    match p {
        Pattern::Wildcard { span } => Pattern::Wildcard { span: *span },
        Pattern::Ident { name, span } => Pattern::Ident { name: copy_string(name), span: *span },
        Pattern::Variant { name, args, span } => {
            Pattern::Variant { name: copy_string(name), args: copy_patterns(args), span: *span }
        },
    }
}

/// A copy of a list of patterns.
pub fn copy_patterns(v: &Vec<Pattern>) -> (r: Vec<Pattern>)
    ensures
        same_patterns(r@, v@),
    decreases v, 0int,
{
    let mut out: Vec<Pattern> = Vec::new();
    let n = v.len();
    let mut i: usize = 0;
    while i < n
        invariant
            n == v@.len(),
            i <= n,
            same_patterns(out@, v@.subrange(0, i as int)),
        decreases n - i,
    {
        let c = copy_pattern(&v[i]);
        let ghost before = out@;
        out.push(c);
        assert(out@.subrange(0, i as int) =~= before);
        assert(v@.subrange(0, i + 1).subrange(0, i as int) =~= v@.subrange(0, i as int));
        i = i + 1;
    }
    assert(v@.subrange(0, n as int) =~= v@);
    out
}

/// A copy of an expression.
pub fn copy_expr(e: &Expr) -> (r: Expr)
    ensures
        same_expr(r, *e),
        r.spec_span() == e.spec_span(),
    decreases e, 2int,
{
    match e {
        Expr::Literal(lit) => {
            let kind = match &lit.kind {
                LiteralKind::Int(n) => LiteralKind::Int(*n),
                LiteralKind::Bool(b) => LiteralKind::Bool(*b),
                LiteralKind::Text(s) => LiteralKind::Text(copy_string(s)),
            };
            Expr::Literal(Literal { kind, span: lit.span })
        },
        Expr::Identifier { name, span } => Expr::Identifier { name: copy_string(name), span: *span },
        Expr::Unary { op, operand, span } => {
            Expr::Unary { op: *op, operand: Box::new(copy_expr(operand)), span: *span }
        },
        Expr::Binary { op, left, right, span } => {
            Expr::Binary {
                op: *op,
                left: Box::new(copy_expr(left)),
                right: Box::new(copy_expr(right)),
                span: *span,
            }
        },
        Expr::Call { callee, type_args, args, span } => {
            Expr::Call {
                callee: Box::new(copy_expr(callee)),
                type_args: copy_type_exprs(type_args),
                args: copy_exprs(args),
                span: *span,
            }
        },
        Expr::Match { scrutinee, arms, span } => {
            Expr::Match { scrutinee: Box::new(copy_expr(scrutinee)), arms: copy_arms(arms), span: *span }
        },
        Expr::Member { base, name, span } => {
            Expr::Member { base: Box::new(copy_expr(base)), name: copy_string(name), span: *span }
        },
    }
}

/// A copy of a list of expressions.
pub fn copy_exprs(v: &Vec<Expr>) -> (r: Vec<Expr>)
    ensures
        same_exprs(r@, v@),
    decreases v, 1int,
{
    let mut out: Vec<Expr> = Vec::new();
    let n = v.len();
    let mut i: usize = 0;
    while i < n
        invariant
            n == v@.len(),
            i <= n,
            same_exprs(out@, v@.subrange(0, i as int)),
        decreases n - i,
    {
        let c = copy_expr(&v[i]);
        let ghost before = out@;
        out.push(c);
        assert(out@.subrange(0, i as int) =~= before);
        assert(v@.subrange(0, i + 1).subrange(0, i as int) =~= v@.subrange(0, i as int));
        i = i + 1;
    }
    assert(v@.subrange(0, n as int) =~= v@);
    out
}

/// A copy of a list of match arms.
pub fn copy_arms(v: &Vec<MatchArm>) -> (r: Vec<MatchArm>)
    ensures
        same_arms(r@, v@),
    decreases v, 1int,
{
    let mut out: Vec<MatchArm> = Vec::new();
    let n = v.len();
    let mut i: usize = 0;
    while i < n
        invariant
            n == v@.len(),
            i <= n,
            same_arms(out@, v@.subrange(0, i as int)),
        decreases n - i,
    {
        let arm = &v[i];
        proof { assert(decreases_to!(v@[i as int] => v@[i as int].body)); }
        let c = MatchArm { pattern: copy_pattern(&arm.pattern), body: copy_expr(&arm.body), span: arm.span };
        let ghost before = out@;
        out.push(c);
        assert(out@.subrange(0, i as int) =~= before);
        assert(v@.subrange(0, i + 1).subrange(0, i as int) =~= v@.subrange(0, i as int));
        i = i + 1;
    }
    assert(v@.subrange(0, n as int) =~= v@);
    out
}

/// A copy of an optional expression.
pub fn copy_opt_expr(e: &Option<Expr>) -> (r: Option<Expr>)
    ensures
        same_opt_expr(r, *e),
{
    match e {
        Some(x) => Some(copy_expr(x)),
        None => None,
    }
}

/// A copy of a statement.
pub fn copy_stmt(s: &Stmt) -> (r: Stmt)
    ensures
        same_stmt(r, *s),
    decreases s, 1int,
{
    match s {
        Stmt::Let { name, mutable, ty, value, span } => Stmt::Let {
            name: copy_string(name),
            mutable: *mutable,
            ty: copy_opt_type_expr(ty),
            value: copy_expr(value),
            span: *span,
        },
        Stmt::Expr(e) => Stmt::Expr(copy_expr(e)),
        Stmt::Return { value, span } => Stmt::Return { value: copy_opt_expr(value), span: *span },
        Stmt::If { cond, then_block, else_block, span } => {
            let t = copy_stmts(&then_block.stmts);
            let e = match else_block {
                Some(b) => Some(Block { stmts: copy_stmts(&b.stmts), span: b.span }),
                None => None,
            };
            Stmt::If {
                cond: copy_expr(cond),
                then_block: Block { stmts: t, span: then_block.span },
                else_block: e,
                span: *span,
            }
        },
        Stmt::Check { predicate, blame, span } => Stmt::Check {
            predicate: copy_expr(predicate),
            blame: *blame,
            span: *span,
        },
    }
}

/// A copy of a statement list.
pub fn copy_stmts(v: &Vec<Stmt>) -> (r: Vec<Stmt>)
    ensures
        same_stmts(r@, v@),
    decreases v, 0int,
{
    let mut out: Vec<Stmt> = Vec::new();
    let n = v.len();
    let mut i: usize = 0;
    while i < n
        invariant
            n == v@.len(),
            i <= n,
            same_stmts(out@, v@.subrange(0, i as int)),
        decreases n - i,
    {
        let c = copy_stmt(&v[i]);
        let ghost before = out@;
        out.push(c);
        assert(out@.subrange(0, i as int) =~= before);
        assert(v@.subrange(0, i + 1).subrange(0, i as int) =~= v@.subrange(0, i as int));
        i = i + 1;
    }
    assert(v@.subrange(0, n as int) =~= v@);
    out
}

// --- Sizes ----------------------------------------------------------------------

/// The number of nodes of an expression (lists count one more than their
/// elements).
pub open spec fn expr_size(e: Expr) -> nat
    decreases e, 2int,
{
    match e {
        Expr::Literal(_) => 1,
        Expr::Identifier { .. } => 1,
        Expr::Unary { operand, .. } => 1 + expr_size(*operand),
        Expr::Binary { left, right, .. } => 1 + expr_size(*left) + expr_size(*right),
        Expr::Call { callee, args, .. } => 1 + expr_size(*callee) + exprs_size(args@),
        Expr::Match { scrutinee, arms, .. } => 1 + expr_size(*scrutinee) + arms_size(arms@),
        Expr::Member { base, .. } => 1 + expr_size(*base),
    }
}

/// The size of a list of expressions.
pub open spec fn exprs_size(s: Seq<Expr>) -> nat
    decreases s, 1int,
{
    if s.len() == 0 {
        1
    } else {
        exprs_size(s.subrange(0, s.len() - 1)) + expr_size(s[s.len() - 1])
    }
}

/// The size of a list of match arms (their bodies).
pub open spec fn arms_size(s: Seq<MatchArm>) -> nat
    decreases s, 1int,
{
    if s.len() == 0 {
        1
    } else {
        proof {
            assert(decreases_to!(s[s.len() - 1] => s[s.len() - 1].body));
        }
        arms_size(s.subrange(0, s.len() - 1)) + expr_size(s[s.len() - 1].body)
    }
}

/// The number of nodes of a statement.
pub open spec fn stmt_size(s: Stmt) -> nat
    decreases s, 1int,
{
    match s {
        Stmt::Let { value, .. } => 1 + expr_size(value),
        Stmt::Expr(e) => 1 + expr_size(e),
        Stmt::Return { value, .. } => match value {
            Some(e) => 1 + expr_size(e),
            None => 1,
        },
        Stmt::Check { predicate, .. } => 1 + expr_size(predicate),
        Stmt::If { cond, then_block, else_block, .. } => 1 + expr_size(cond) + stmts_size(then_block.stmts@)
            + match else_block {
            Some(b) => stmts_size(b.stmts@),
            None => 0,
        },
    }
}

/// The size of a statement list.
pub open spec fn stmts_size(s: Seq<Stmt>) -> nat
    decreases s, 0int,
{
    if s.len() == 0 {
        1
    } else {
        stmts_size(s.subrange(0, s.len() - 1)) + stmt_size(s[s.len() - 1])
    }
}

/// Each expression of a list is smaller than the list.
pub proof fn lemma_exprs_size(s: Seq<Expr>, i: int)
    requires
        0 <= i < s.len(),
    ensures
        expr_size(s[i]) < exprs_size(s),
    decreases s.len(),
{
    if i < s.len() - 1 {
        lemma_exprs_size(s.subrange(0, s.len() - 1), i);
        assert(s.subrange(0, s.len() - 1)[i] == s[i]);
    } else {
        exprs_size_positive(s.subrange(0, s.len() - 1));
    }
}

/// Each arm body of a list is smaller than the list.
pub proof fn lemma_arms_size(s: Seq<MatchArm>, i: int)
    requires
        0 <= i < s.len(),
    ensures
        expr_size(s[i].body) < arms_size(s),
    decreases s.len(),
{
    if i < s.len() - 1 {
        lemma_arms_size(s.subrange(0, s.len() - 1), i);
        assert(s.subrange(0, s.len() - 1)[i] == s[i]);
    } else {
        arms_size_positive(s.subrange(0, s.len() - 1));
    }
}

/// Each statement of a list is smaller than the list.
pub proof fn lemma_stmts_size(s: Seq<Stmt>, i: int)
    requires
        0 <= i < s.len(),
    ensures
        stmt_size(s[i]) < stmts_size(s),
    decreases s.len(),
{
    if i < s.len() - 1 {
        lemma_stmts_size(s.subrange(0, s.len() - 1), i);
        assert(s.subrange(0, s.len() - 1)[i] == s[i]);
    } else {
        stmts_size_positive(s.subrange(0, s.len() - 1));
    }
}

/// A list's size is at least one.
pub proof fn exprs_size_positive(s: Seq<Expr>)
    ensures
        exprs_size(s) >= 1,
    decreases s.len(),
{
    if s.len() > 0 {
        exprs_size_positive(s.subrange(0, s.len() - 1));
    }
}

/// A list's size is at least one.
pub proof fn arms_size_positive(s: Seq<MatchArm>)
    ensures
        arms_size(s) >= 1,
    decreases s.len(),
{
    if s.len() > 0 {
        arms_size_positive(s.subrange(0, s.len() - 1));
    }
}

/// A list's size is at least one.
pub proof fn stmts_size_positive(s: Seq<Stmt>)
    ensures
        stmts_size(s) >= 1,
    decreases s.len(),
{
    if s.len() > 0 {
        stmts_size_positive(s.subrange(0, s.len() - 1));
    }
}

} // verus!
