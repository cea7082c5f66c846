//! Runtime values and errors.

use vstd::prelude::*;
use crate::diagnostic::{Blame, Diagnostic, Severity};
use crate::span::Span;
use crate::text::{copy_string, int_decimal, owned, push_i64, push_str};

verus! {

/// A runtime value. There is no null value, so "non-null by default" holds at
/// run time by construction.
#[derive(Debug, PartialEq)]
pub enum Value {
    Int(i64),
    Bool(bool),
    Text(String),
    /// A sum-type value: a variant name and its positional payload.
    Variant { name: String, fields: Vec<Value> },
    /// An unforgeable capability token tagged with the authority it grants.
    Capability { authority: String },
    /// The value of a statement or a function with no return value.
    Unit,
    /// A (pure) top-level function used as a value, by name.
    Function { name: String },
}

/// Two values of the same shape, with the same text and numbers at every node.
pub open spec fn same_value(a: Value, b: Value) -> bool
    decreases a, 1int,
{
    match a {
        Value::Int(x) => b == Value::Int(x),
        Value::Bool(x) => b == Value::Bool(x),
        Value::Text(s) => match b {
            Value::Text(t) => s@ == t@,
            _ => false,
        },
        Value::Variant { name: n1, fields: f1 } => match b {
            Value::Variant { name: n2, fields: f2 } => n1@ == n2@ && same_values(f1@, f2@),
            _ => false,
        },
        Value::Capability { authority: a1 } => match b {
            Value::Capability { authority: a2 } => a1@ == a2@,
            _ => false,
        },
        Value::Unit => b is Unit,
        Value::Function { name: n1 } => match b {
            Value::Function { name: n2 } => n1@ == n2@,
            _ => false,
        },
    }
}

/// Pairwise sameness of two value lists.
pub open spec fn same_values(xs: Seq<Value>, ys: Seq<Value>) -> bool
    decreases xs, 0int,
{
    if xs.len() != ys.len() {
        false
    } else if xs.len() == 0 {
        true
    } else {
        same_values(xs.subrange(0, xs.len() - 1), ys.subrange(0, ys.len() - 1)) && same_value(
            xs[xs.len() - 1],
            ys[ys.len() - 1],
        )
    }
}

/// The short name of a value's type, for diagnostics.
pub open spec fn type_label_of(v: Value) -> Seq<char> {
    match v {
        Value::Int(_) => "Int"@,
        Value::Bool(_) => "Bool"@,
        Value::Text(_) => "Text"@,
        Value::Variant { .. } => "variant"@,
        Value::Capability { .. } => "capability"@,
        Value::Unit => "Unit"@,
        Value::Function { .. } => "function"@,
    }
}

impl Value {
    /// A short name for the value's type, for diagnostics.
    pub fn type_label(&self) -> (s: &'static str)
        ensures
            s@ == type_label_of(*self),
    {
        match self {
            Value::Int(_) => "Int",
            Value::Bool(_) => "Bool",
            Value::Text(_) => "Text",
            Value::Variant { .. } => "variant",
            Value::Capability { .. } => "capability",
            Value::Unit => "Unit",
            Value::Function { .. } => "function",
        }
    }
}

/// A copy of a value, of the same shape at every node.
pub fn copy_value(v: &Value) -> (r: Value)
    ensures
        same_value(r, *v),
    decreases v, 1int,
{
    match v {
        Value::Int(n) => Value::Int(*n),
        Value::Bool(b) => Value::Bool(*b),
        Value::Text(s) => Value::Text(copy_string(s)),
        Value::Variant { name, fields } => Value::Variant {
            name: copy_string(name),
            fields: copy_values(fields),
        },
        Value::Capability { authority } => Value::Capability { authority: copy_string(authority) },
        Value::Unit => Value::Unit,
        Value::Function { name } => Value::Function { name: copy_string(name) },
    }
}

/// A copy of a list of values.
pub fn copy_values(v: &Vec<Value>) -> (r: Vec<Value>)
    ensures
        same_values(r@, v@),
    decreases v, 0int,
{
    let mut out: Vec<Value> = Vec::new();
    let n = v.len();
    let mut i: usize = 0;
    while i < n
        invariant
            n == v@.len(),
            i <= n,
            same_values(out@, v@.subrange(0, i as int)),
        decreases n - i,
    {
        let c = copy_value(&v[i]);
        let ghost before = out@;
        out.push(c);
        assert(out@.subrange(0, i as int) =~= before);
        assert(v@.subrange(0, i + 1).subrange(0, i as int) =~= v@.subrange(0, i as int));
        i = i + 1;
    }
    assert(v@.subrange(0, n as int) =~= v@);
    out
}

/// A runtime error, anchored to the source span that triggered it. The
/// evaluator never panics on an ill-behaved program; it returns one of these.
#[derive(Debug, Clone, PartialEq, Eq)]
pub struct RuntimeError {
    /// Stable code, matching the shared diagnostic schema.
    pub code: String,
    pub message: String,
    pub span: Span,
    /// For a contract violation, which side is at fault.
    pub blame: Option<Blame>,
}

impl RuntimeError {
    /// An ordinary runtime error (`E1000`).
    pub fn new(span: Span, message: &str) -> (e: RuntimeError)
        ensures
            e.code@ == "E1000"@,
            e.message@ == message@,
            e.span == span,
            e.blame is None,
    {
        RuntimeError { code: owned("E1000"), message: owned(message), span, blame: None }
    }

    /// An ordinary runtime error with an owned message.
    pub fn with_message(span: Span, message: String) -> (e: RuntimeError)
        ensures
            e.code@ == "E1000"@,
            e.message == message,
            e.span == span,
            e.blame is None,
    {
        RuntimeError { code: owned("E1000"), message, span, blame: None }
    }

    /// A failed precondition (`C0001`): blames the caller.
    pub fn precondition(span: Span) -> (e: RuntimeError)
        ensures
            e.code@ == "C0001"@,
            e.message@ == "precondition violated (blame: caller)"@,
            e.span == span,
            e.blame == Some(Blame::Caller),
    {
        RuntimeError {
            code: owned("C0001"),
            message: owned("precondition violated (blame: caller)"),
            span,
            blame: Some(Blame::Caller),
        }
    }

    /// A failed postcondition (`C0002`): blames the implementation.
    pub fn postcondition(span: Span) -> (e: RuntimeError)
        ensures
            e.code@ == "C0002"@,
            e.message@ == "postcondition violated (blame: implementation)"@,
            e.span == span,
            e.blame == Some(Blame::Implementation),
    {
        RuntimeError {
            code: owned("C0002"),
            message: owned("postcondition violated (blame: implementation)"),
            span,
            blame: Some(Blame::Implementation),
        }
    }

    /// The shared diagnostic carrying this error: same code, span, message and
    /// blame, error severity.
    pub fn to_diagnostic(&self) -> (d: Diagnostic)
        ensures
            d.code@ == self.code@,
            d.span == self.span,
            d.message@ == self.message@,
            d.severity == Severity::Error,
            d.blame == self.blame,
    {
        Diagnostic {
            code: copy_string(&self.code),
            span: self.span,
            message: copy_string(&self.message),
            severity: Severity::Error,
            blame: self.blame,
        }
    }
}

/// How a value is printed: integers in decimal, `true`/`false`, text as is,
/// `()` for `Unit`, a variant as its name with its payload in parentheses.
pub open spec fn value_text(v: Value) -> Seq<char>
    decreases v, 1int,
{
    match v {
        Value::Int(n) => int_decimal(n as int),
        Value::Bool(b) => if b { "true"@ } else { "false"@ },
        Value::Text(s) => s@,
        Value::Unit => "()"@,
        Value::Capability { authority } => "<capability "@ + authority@ + ">"@,
        Value::Function { name } => "<function "@ + name@ + ">"@,
        Value::Variant { name, fields } => if fields@.len() == 0 {
            name@
        } else {
            name@ + "("@ + values_text(fields@) + ")"@
        },
    }
}

/// A comma-separated list of printed values.
pub open spec fn values_text(vs: Seq<Value>) -> Seq<char>
    decreases vs, 0int,
{
    if vs.len() == 0 {
        Seq::empty()
    } else if vs.len() == 1 {
        value_text(vs[0])
    } else {
        values_text(vs.subrange(0, vs.len() - 1)) + ", "@ + value_text(vs[vs.len() - 1])
    }
}

impl Value {
    /// How this value is printed.
    pub fn to_text(&self) -> (r: String)
        ensures
            r@ == value_text(*self),
    {
        let mut out = String::new();
        write_value(self, &mut out);
        assert(out@ =~= value_text(*self));
        out
    }
}

fn write_value(v: &Value, out: &mut String)
    ensures
        final(out)@ == old(out)@ + value_text(*v),
    decreases v, 1int,
{
    let ghost o = out@;
    match v {
        Value::Int(n) => push_i64(out, *n),
        Value::Bool(b) => {
            if *b {
                push_str(out, "true");
            } else {
                push_str(out, "false");
            }
        },
        Value::Text(s) => push_str(out, s.as_str()),
        Value::Unit => push_str(out, "()"),
        Value::Capability { authority } => {
            push_str(out, "<capability ");
            push_str(out, authority.as_str());
            push_str(out, ">");
            assert(out@ =~= o + value_text(*v));
        },
        Value::Function { name } => {
            push_str(out, "<function ");
            push_str(out, name.as_str());
            push_str(out, ">");
            assert(out@ =~= o + value_text(*v));
        },
        Value::Variant { name, fields } => {
            push_str(out, name.as_str());
            if fields.len() > 0 {
                push_str(out, "(");
                write_values(fields, out);
                push_str(out, ")");
            }
            assert(out@ =~= o + value_text(*v));
        },
    }
}

fn write_values(vs: &Vec<Value>, out: &mut String)
    ensures
        final(out)@ == old(out)@ + values_text(vs@),
    decreases vs, 0int,
{
    let ghost o = out@;
    let n = vs.len();
    let mut i: usize = 0;
    while i < n
        invariant
            n == vs@.len(),
            i <= n,
            out@ == o + values_text(vs@.subrange(0, i as int)),
        decreases n - i,
    {
        if i > 0 {
            push_str(out, ", ");
        }
        write_value(&vs[i], out);
        assert(vs@.subrange(0, i + 1).subrange(0, i as int) =~= vs@.subrange(0, i as int));
        assert(out@ =~= o + values_text(vs@.subrange(0, i + 1)));
        i = i + 1;
    }
    assert(vs@.subrange(0, n as int) =~= vs@);
}

/// What a value is, as plain data: texts and names by their characters.
pub enum Val {
    Int(i64),
    Bool(bool),
    Text(Seq<char>),
    Variant(Seq<char>, Seq<Val>),
    Cap(Seq<char>),
    Unit,
    Func(Seq<char>),
}

/// The plain data of a value.
pub open spec fn vview(v: Value) -> Val
    decreases v, 1int,
{
    match v {
        Value::Int(n) => Val::Int(n),
        Value::Bool(b) => Val::Bool(b),
        Value::Text(s) => Val::Text(s@),
        Value::Variant { name, fields } => Val::Variant(name@, vviews(fields@)),
        Value::Capability { authority } => Val::Cap(authority@),
        Value::Unit => Val::Unit,
        Value::Function { name } => Val::Func(name@),
    }
}

/// The plain data of a list of values.
pub open spec fn vviews(vs: Seq<Value>) -> Seq<Val>
    decreases vs, 0int,
{
    if vs.len() == 0 {
        Seq::empty()
    } else {
        vviews(vs.subrange(0, vs.len() - 1)).push(vview(vs[vs.len() - 1]))
    }
}

/// `vviews` keeps positions.
pub proof fn lemma_vviews(vs: Seq<Value>)
    ensures
        vviews(vs).len() == vs.len(),
        forall|i: int| 0 <= i < vs.len() ==> #[trigger] vviews(vs)[i] == vview(vs[i]),
    decreases vs.len(),
{
    if vs.len() > 0 {
        let pre = vs.subrange(0, vs.len() - 1);
        lemma_vviews(pre);
        assert forall|i: int| 0 <= i < vs.len() implies #[trigger] vviews(vs)[i] == vview(vs[i]) by {
            if i < vs.len() - 1 {
                assert(vviews(vs)[i] == vviews(pre)[i]);
                assert(pre[i] == vs[i]);
            }
        }
    }
}

/// Values of the same shape have the same plain data.
pub proof fn lemma_same_value_view(a: Value, b: Value)
    requires
        same_value(a, b),
    ensures
        vview(a) == vview(b),
    decreases a, 1int,
{
    match (a, b) {
        (Value::Variant { name: n1, fields: f1 }, Value::Variant { name: n2, fields: f2 }) => {
            lemma_same_values_view(f1@, f2@);
        },
        _ => {},
    }
}

/// Lists of values of the same shape have the same plain data.
pub proof fn lemma_same_values_view(xs: Seq<Value>, ys: Seq<Value>)
    requires
        same_values(xs, ys),
    ensures
        vviews(xs) == vviews(ys),
    decreases xs, 0int,
{
    if xs.len() > 0 {
        lemma_same_values_view(xs.subrange(0, xs.len() - 1), ys.subrange(0, ys.len() - 1));
        lemma_same_value_view(xs[xs.len() - 1], ys[ys.len() - 1]);
    }
}

/// The short name of a plain value's type.
pub open spec fn val_label(v: Val) -> Seq<char> {
    match v {
        Val::Int(_) => "Int"@,
        Val::Bool(_) => "Bool"@,
        Val::Text(_) => "Text"@,
        Val::Variant(_, _) => "variant"@,
        Val::Cap(_) => "capability"@,
        Val::Unit => "Unit"@,
        Val::Func(_) => "function"@,
    }
}

/// How a plain value is printed (see `value_text`).
pub open spec fn val_text(v: Val) -> Seq<char>
    decreases v, 1int,
{
    match v {
        Val::Int(n) => int_decimal(n as int),
        Val::Bool(b) => if b { "true"@ } else { "false"@ },
        Val::Text(s) => s,
        Val::Unit => "()"@,
        Val::Cap(a) => "<capability "@ + a + ">"@,
        Val::Func(n) => "<function "@ + n + ">"@,
        Val::Variant(n, fs) => if fs.len() == 0 {
            n
        } else {
            n + "("@ + vals_text(fs) + ")"@
        },
    }
}

/// A comma-separated list of printed plain values.
pub open spec fn vals_text(vs: Seq<Val>) -> Seq<char>
    decreases vs, 0int,
{
    if vs.len() == 0 {
        Seq::empty()
    } else if vs.len() == 1 {
        val_text(vs[0])
    } else {
        vals_text(vs.subrange(0, vs.len() - 1)) + ", "@ + val_text(vs[vs.len() - 1])
    }
}

/// A value prints as its plain data does.
pub proof fn lemma_value_text_view(v: Value)
    ensures
        value_text(v) == val_text(vview(v)),
        type_label_of(v) == val_label(vview(v)),
    decreases v, 1int,
{
    match v {
        Value::Variant { name, fields } => {
            lemma_values_text_view(fields@);
        },
        _ => {},
    }
}

proof fn lemma_values_text_view(vs: Seq<Value>)
    ensures
        values_text(vs) == vals_text(vviews(vs)),
    decreases vs, 0int,
{
    lemma_vviews(vs);
    if vs.len() == 1 {
        lemma_value_text_view(vs[0]);
    } else if vs.len() > 1 {
        let pre = vs.subrange(0, vs.len() - 1);
        lemma_values_text_view(pre);
        lemma_value_text_view(vs[vs.len() - 1]);
        assert(vviews(vs).subrange(0, vviews(vs).len() - 1) =~= vviews(pre)) by {
            lemma_vviews(pre);
        };
    }
}

/// What an error is, as plain data: code, message, span and blame.
pub type ErrV = (Seq<char>, Seq<char>, Span, Option<Blame>);

/// The plain data of a runtime error.
pub open spec fn err_view(e: RuntimeError) -> ErrV {
    (e.code@, e.message@, e.span, e.blame)
}

/// A blameless `E1000` error at `span` saying `message`.
pub open spec fn plain_err(span: Span, message: Seq<char>) -> ErrV {
    ("E1000"@, message, span, None)
}

/// The plain data of a result.
pub open spec fn res_view(r: Result<Value, RuntimeError>) -> Result<Val, ErrV> {
    match r {
        Ok(v) => Ok(vview(v)),
        Err(e) => Err(err_view(e)),
    }
}

} // verus!
