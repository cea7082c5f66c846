//! The run-time operations on values: checked integer arithmetic, comparison,
//! structural equality, and the text built-ins. No operation panics; each bad
//! input is a runtime error.

use vstd::prelude::*;
use crate::ast::{BinaryOp, UnaryOp};
use crate::span::Span;
use crate::text::{cat, decimal, i64_text, int_decimal, push_char, push_str, str_eq, usize_text};
use crate::value::{err_view, lemma_value_text_view, lemma_vviews, plain_err, res_view, val_label, vview, vviews, ErrV, RuntimeError, Val, Value};

verus! {

/// The result of a checked integer operation: `None` on overflow or a zero
/// divisor.
pub open spec fn checked_op(op: BinaryOp, a: i64, b: i64) -> Option<i64> {
    match op {
        BinaryOp::Add => a.checked_add(b),
        BinaryOp::Sub => a.checked_sub(b),
        BinaryOp::Mul => a.checked_mul(b),
        BinaryOp::Div => a.checked_div(b),
        BinaryOp::Rem => a.checked_rem(b),
        _ => None,
    }
}

/// Whether an operator is one of the five arithmetic ones.
pub open spec fn is_arith(op: BinaryOp) -> bool {
    op is Add || op is Sub || op is Mul || op is Div || op is Rem
}

/// Whether an operator is one of the four orderings.
pub open spec fn is_order(op: BinaryOp) -> bool {
    op is Lt || op is Le || op is Gt || op is Ge
}

/// The message of an error: its code is `E1000` and it carries no blame.
pub open spec fn plain_error(e: RuntimeError, span: Span, message: Seq<char>) -> bool {
    e.code@ == "E1000"@ && e.span == span && e.blame is None && e.message@ == message
}

/// A unary operator on plain data: `-` negates an `Int` (checked), `!`
/// flips a `Bool`; anything else is an error.
pub open spec fn unary_v(op: UnaryOp, v: Val, span: Span) -> Result<Val, ErrV> {
    match (op, v) {
        (UnaryOp::Neg, Val::Int(n)) => match 0i64.checked_sub(n) {
            Some(m) => Ok(Val::Int(m)),
            None => Err(plain_err(span, "integer overflow negating value"@)),
        },
        (UnaryOp::Not, Val::Bool(b)) => Ok(Val::Bool(!b)),
        (UnaryOp::Neg, _) => Err(plain_err(span, "cannot negate a value of type "@ + val_label(v))),
        (UnaryOp::Not, _) => Err(plain_err(span, "cannot apply `!` to a value of type "@ + val_label(v))),
    }
}

/// Apply a unary operator: `-` negates an `Int` (checked), `!` flips a `Bool`.
pub fn eval_unary(op: UnaryOp, v: &Value, span: Span) -> (r: Result<Value, RuntimeError>)
    ensures
        res_view(r) == unary_v(op, vview(*v), span),
{
    match (op, v) {
        (UnaryOp::Neg, Value::Int(n)) => match 0i64.checked_sub(*n) {
            Some(m) => Ok(Value::Int(m)),
            None => Err(RuntimeError::new(span, "integer overflow negating value")),
        },
        (UnaryOp::Not, Value::Bool(b)) => Ok(Value::Bool(!*b)),
        (UnaryOp::Neg, _) => {
            let m = cat(&["cannot negate a value of type ", v.type_label()]);
            proof {
                reveal_with_fuel(crate::text::joined, 3);
                lemma_value_text_view(*v);
            }
            Err(RuntimeError::with_message(span, m))
        },
        (UnaryOp::Not, _) => {
            let m = cat(&["cannot apply `!` to a value of type ", v.type_label()]);
            proof {
                reveal_with_fuel(crate::text::joined, 3);
                lemma_value_text_view(*v);
            }
            Err(RuntimeError::with_message(span, m))
        },
    }
}

/// Checked arithmetic on plain data: two `Int`s, a zero divisor and
/// overflow being errors.
pub open spec fn arith_v(op: BinaryOp, l: Val, r: Val, span: Span) -> Result<Val, ErrV> {
    match (l, r) {
        (Val::Int(a), Val::Int(b)) => if b == 0 && op is Div {
            Err(plain_err(span, "division by zero"@))
        } else if b == 0 && op is Rem {
            Err(plain_err(span, "remainder by zero"@))
        } else {
            match checked_op(op, a, b) {
                Some(x) => Ok(Val::Int(x)),
                None => Err(plain_err(span, "integer overflow"@)),
            }
        },
        _ => Err(plain_err(span, "arithmetic requires two Int operands, found "@ + val_label(l) + " and "@ + val_label(r))),
    }
}

/// Checked integer arithmetic on two `Int`s.
pub fn arithmetic(op: BinaryOp, l: &Value, r: &Value, span: Span) -> (res: Result<Value, RuntimeError>)
    requires
        is_arith(op),
    ensures
        res_view(res) == arith_v(op, vview(*l), vview(*r), span),
{
    let (a, b) = match (l, r) {
        (Value::Int(a), Value::Int(b)) => (*a, *b),
        _ => {
            let m = cat(&["arithmetic requires two Int operands, found ", l.type_label(), " and ", r.type_label()]);
            proof {
                reveal_with_fuel(crate::text::joined, 5);
                lemma_value_text_view(*l);
                lemma_value_text_view(*r);
            }
            return Err(RuntimeError::with_message(span, m));
        },
    };
    let result = match op {
        BinaryOp::Add => a.checked_add(b),
        BinaryOp::Sub => a.checked_sub(b),
        BinaryOp::Mul => a.checked_mul(b),
        BinaryOp::Div => {
            if b == 0 {
                return Err(RuntimeError::new(span, "division by zero"));
            }
            a.checked_div(b)
        },
        _ => {
            if b == 0 {
                return Err(RuntimeError::new(span, "remainder by zero"));
            }
            a.checked_rem(b)
        },
    };
    match result {
        Some(x) => Ok(Value::Int(x)),
        None => Err(RuntimeError::new(span, "integer overflow")),
    }
}

/// The outcome of an ordering comparison of two integers.
pub open spec fn order_holds(op: BinaryOp, a: i64, b: i64) -> bool {
    match op {
        BinaryOp::Lt => a < b,
        BinaryOp::Le => a <= b,
        BinaryOp::Gt => a > b,
        _ => a >= b,
    }
}

/// An ordering comparison on plain data: two `Int`s, else an error.
pub open spec fn compare_v(op: BinaryOp, l: Val, r: Val, span: Span) -> Result<Val, ErrV> {
    match (l, r) {
        (Val::Int(a), Val::Int(b)) => Ok(Val::Bool(order_holds(op, a, b))),
        _ => Err(plain_err(span, "comparison requires two Int operands, found "@ + val_label(l) + " and "@ + val_label(r))),
    }
}

/// Compare two `Int`s.
pub fn compare(op: BinaryOp, l: &Value, r: &Value, span: Span) -> (res: Result<Value, RuntimeError>)
    requires
        is_order(op),
    ensures
        res_view(res) == compare_v(op, vview(*l), vview(*r), span),
{
    match (l, r) {
        (Value::Int(a), Value::Int(b)) => Ok(Value::Bool(match op {
            BinaryOp::Lt => *a < *b,
            BinaryOp::Le => *a <= *b,
            BinaryOp::Gt => *a > *b,
            _ => *a >= *b,
        })),
        _ => {
            let m = cat(&["comparison requires two Int operands, found ", l.type_label(), " and ", r.type_label()]);
            proof {
                reveal_with_fuel(crate::text::joined, 5);
                lemma_value_text_view(*l);
                lemma_value_text_view(*r);
            }
            Err(RuntimeError::with_message(span, m))
        },
    }
}

/// Structural equality of plain values within one type: `Ok(b)` for
/// comparable values, else the first pair (left to right, outermost first)
/// that cannot be compared (different types, or a type without equality).
pub open spec fn val_eq(l: Val, r: Val) -> Result<bool, (Val, Val)>
    decreases l, 1int,
{
    match (l, r) {
        (Val::Int(a), Val::Int(b)) => Ok(a == b),
        (Val::Bool(a), Val::Bool(b)) => Ok(a == b),
        (Val::Text(a), Val::Text(b)) => Ok(a == b),
        (Val::Variant(a, fa), Val::Variant(b, fb)) => if a != b || fa.len() != fb.len() {
            Ok(false)
        } else {
            vals_eq(fa, fb)
        },
        _ => Err((l, r)),
    }
}

/// Pairwise equality of two payloads, left to right: the first
/// incomparable pair is the error, else the first unequal pair is `false`.
pub open spec fn vals_eq(xs: Seq<Val>, ys: Seq<Val>) -> Result<bool, (Val, Val)>
    decreases xs, 0int,
{
    if xs.len() == 0 || ys.len() == 0 {
        Ok(true)
    } else {
        match val_eq(xs[0], ys[0]) {
            Ok(true) => vals_eq(xs.subrange(1, xs.len() as int), ys.subrange(1, ys.len() as int)),
            other => other,
        }
    }
}

/// The error of comparing an incomparable pair.
pub open spec fn eq_error(p: (Val, Val), span: Span) -> ErrV {
    plain_err(span, "cannot compare "@ + val_label(p.0) + " with "@ + val_label(p.1))
}

/// Structural equality of two values; comparing values of different types is
/// a runtime error, never a silent `false`.
pub fn equal(l: &Value, r: &Value, span: Span) -> (res: Result<bool, RuntimeError>)
    ensures
        match val_eq(vview(*l), vview(*r)) {
            Ok(b) => res == Ok::<bool, RuntimeError>(b),
            Err(p) => res is Err && err_view(res->Err_0) == eq_error(p, span),
        },
    decreases l, 1int,
{
    match (l, r) {
        (Value::Int(a), Value::Int(b)) => Ok(*a == *b),
        (Value::Bool(a), Value::Bool(b)) => Ok(*a == *b),
        (Value::Text(a), Value::Text(b)) => Ok(str_eq(a.as_str(), b.as_str())),
        (Value::Variant { name: a, fields: fa }, Value::Variant { name: b, fields: fb }) => {
            proof {
                lemma_vviews(fa@);
                lemma_vviews(fb@);
            }
            if !str_eq(a.as_str(), b.as_str()) || fa.len() != fb.len() {
                return Ok(false);
            }
            equal_fields(fa, fb, span)
        },
        _ => {
            let m = cat(&["cannot compare ", l.type_label(), " with ", r.type_label()]);
            proof {
                reveal_with_fuel(crate::text::joined, 5);
                lemma_value_text_view(*l);
                lemma_value_text_view(*r);
            }
            Err(RuntimeError::with_message(span, m))
        },
    }
}

proof fn lemma_vviews_suffix(xs: Seq<Value>, i: int)
    requires
        0 <= i <= xs.len(),
    ensures
        vviews(xs.subrange(i, xs.len() as int)) == vviews(xs).subrange(i, xs.len() as int),
{
    lemma_vviews(xs);
    lemma_vviews(xs.subrange(i, xs.len() as int));
    assert(vviews(xs.subrange(i, xs.len() as int)) =~= vviews(xs).subrange(i, xs.len() as int));
}

fn equal_fields(xs: &Vec<Value>, ys: &Vec<Value>, span: Span) -> (res: Result<bool, RuntimeError>)
    requires
        xs@.len() == ys@.len(),
    ensures
        match vals_eq(vviews(xs@), vviews(ys@)) {
            Ok(b) => res == Ok::<bool, RuntimeError>(b),
            Err(p) => res is Err && err_view(res->Err_0) == eq_error(p, span),
        },
    decreases xs, 0int,
{
    let n = xs.len();
    let mut i: usize = 0;
    proof {
        lemma_vviews_suffix(xs@, 0);
        lemma_vviews_suffix(ys@, 0);
        assert(xs@.subrange(0, n as int) =~= xs@);
        assert(ys@.subrange(0, n as int) =~= ys@);
        lemma_vviews(xs@);
        assert(vviews(xs@).subrange(0, n as int) =~= vviews(xs@));
        assert(vviews(ys@).subrange(0, n as int) =~= vviews(ys@));
    }
    while i < n
        invariant
            n == xs@.len(),
            n == ys@.len(),
            i <= n,
            vals_eq(vviews(xs@), vviews(ys@)) == vals_eq(vviews(xs@.subrange(i as int, n as int)), vviews(ys@.subrange(i as int, n as int))),
        decreases n - i,
    {
        let ghost tx = vviews(xs@.subrange(i as int, n as int));
        let ghost ty = vviews(ys@.subrange(i as int, n as int));
        proof {
            lemma_vviews_suffix(xs@, i as int);
            lemma_vviews_suffix(ys@, i as int);
            lemma_vviews_suffix(xs@, i + 1);
            lemma_vviews_suffix(ys@, i + 1);
            lemma_vviews(xs@);
            lemma_vviews(ys@);
            assert(tx[0] == vview(xs@[i as int]));
            assert(ty[0] == vview(ys@[i as int]));
            assert(tx.subrange(1, tx.len() as int) =~= vviews(xs@.subrange(i + 1, n as int)));
            assert(ty.subrange(1, ty.len() as int) =~= vviews(ys@.subrange(i + 1, n as int)));
        }
        match equal(&xs[i], &ys[i], span) {
            Ok(true) => {},
            Ok(false) => return Ok(false),
            Err(e) => return Err(e),
        }
        i = i + 1;
    }
    proof {
        lemma_vviews(xs@.subrange(n as int, n as int));
    }
    Ok(true)
}

// --- Text built-ins -----------------------------------------------------------

/// The message of a text built-in given a non-`Text` argument.
pub open spec fn want_text_msg(name: Seq<char>, v: Val) -> Seq<char> {
    "`"@ + name + "` expects a `Text` argument, got "@ + val_label(v)
}

/// The message of a text built-in given a non-`Int` argument.
pub open spec fn want_int_msg(name: Seq<char>, v: Val) -> Seq<char> {
    "`"@ + name + "` expects an `Int` argument, got "@ + val_label(v)
}

/// Whether `n` is a Unicode scalar value (a code point other than a
/// surrogate).
pub open spec fn is_scalar(n: i64) -> bool {
    (0 <= n <= 0xD7FF) || (0xE000 <= n <= 0x10FFFF)
}

/// The character of a scalar value.
///
/// Trusted: `char::from_u32` gives the character with that code point exactly
/// for the scalar values, and `None` otherwise, as its documentation states.
#[verifier::external_body]
fn char_of(n: u32) -> (r: Option<char>)
    ensures
        match r {
            Some(c) => c == (n as char) && c as u32 == n && is_scalar(n as i64),
            None => !is_scalar(n as i64),
        },
{
    char::from_u32(n)
}

fn text_arg<'a>(name: &str, v: &'a Value, span: Span) -> (r: Result<&'a String, RuntimeError>)
    ensures
        match *v {
            Value::Text(s) => r == Ok::<&String, RuntimeError>(&s),
            _ => r is Err && plain_error(r->Err_0, span, want_text_msg(name@, vview(*v))),
        },
{
    match v {
        Value::Text(s) => Ok(s),
        _ => {
            let m = cat(&["`", name, "` expects a `Text` argument, got ", v.type_label()]);
            proof {
                reveal_with_fuel(crate::text::joined, 5);
                lemma_value_text_view(*v);
            }
            Err(RuntimeError::with_message(span, m))
        },
    }
}

fn int_arg(name: &str, v: &Value, span: Span) -> (r: Result<i64, RuntimeError>)
    ensures
        match *v {
            Value::Int(n) => r == Ok::<i64, RuntimeError>(n),
            _ => r is Err && plain_error(r->Err_0, span, want_int_msg(name@, vview(*v))),
        },
{
    match v {
        Value::Int(n) => Ok(*n),
        _ => {
            let m = cat(&["`", name, "` expects an `Int` argument, got ", v.type_label()]);
            proof {
                reveal_with_fuel(crate::text::joined, 5);
                lemma_value_text_view(*v);
            }
            Err(RuntimeError::with_message(span, m))
        },
    }
}

/// Whether `name` is one of the text built-ins.
pub open spec fn is_text_builtin(name: Seq<char>) -> bool {
    ||| name == "concat"@
    ||| name == "text_len"@
    ||| name == "char_at"@
    ||| name == "substring"@
    ||| name == "char_code"@
    ||| name == "code_char"@
}

/// The arity of a text built-in.
pub open spec fn text_builtin_arity(name: Seq<char>) -> nat {
    if name == "concat"@ || name == "char_at"@ {
        2
    } else if name == "substring"@ {
        3
    } else {
        1
    }
}

/// A text built-in on plain data: the arity is checked first, then each
/// argument's type left to right, then indices and code points. Text is a
/// sequence of Unicode scalar values, never holding U+0000.
pub open spec fn text_builtin_v(name: Seq<char>, args: Seq<Val>, span: Span) -> Result<Val, ErrV> {
    let k = text_builtin_arity(name);
    if args.len() != k {
        Err(plain_err(span, "`"@ + name + "` expects "@ + decimal(k) + " argument(s), got "@ + decimal(args.len())))
    } else if name == "concat"@ {
        match (args[0], args[1]) {
            (Val::Text(a), Val::Text(b)) => Ok(Val::Text(a + b)),
            (Val::Text(_), b) => Err(plain_err(span, want_text_msg(name, b))),
            (a, _) => Err(plain_err(span, want_text_msg(name, a))),
        }
    } else if name == "text_len"@ {
        match args[0] {
            Val::Text(a) => if a.len() > i64::MAX {
                Err(plain_err(span, "`text_len` result does not fit in an Int"@))
            } else {
                Ok(Val::Int(a.len() as i64))
            },
            a => Err(plain_err(span, want_text_msg(name, a))),
        }
    } else if name == "char_at"@ {
        match (args[0], args[1]) {
            (Val::Text(a), Val::Int(i)) => if i < 0 || i >= a.len() {
                Err(plain_err(span, "`char_at` index "@ + int_decimal(i as int) + " is out of range"@))
            } else {
                Ok(Val::Text(seq![a[i as int]]))
            },
            (Val::Text(_), b) => Err(plain_err(span, want_int_msg(name, b))),
            (a, _) => Err(plain_err(span, want_text_msg(name, a))),
        }
    } else if name == "substring"@ {
        match (args[0], args[1], args[2]) {
            (Val::Text(a), Val::Int(st), Val::Int(e)) => if st < 0 || e < st || e > a.len() {
                Err(plain_err(span, "`substring` range "@ + int_decimal(st as int) + ".."@ + int_decimal(e as int)
                    + " is out of bounds (len "@ + decimal(a.len()) + ")"@))
            } else {
                Ok(Val::Text(a.subrange(st as int, e as int)))
            },
            (Val::Text(_), Val::Int(_), c) => Err(plain_err(span, want_int_msg(name, c))),
            (Val::Text(_), b, _) => Err(plain_err(span, want_int_msg(name, b))),
            (a, _, _) => Err(plain_err(span, want_text_msg(name, a))),
        }
    } else if name == "char_code"@ {
        match args[0] {
            Val::Text(a) => if a.len() == 0 {
                Err(plain_err(span, "`char_code` of empty text: there is no first character"@))
            } else {
                Ok(Val::Int((a[0] as u32) as i64))
            },
            a => Err(plain_err(span, want_text_msg(name, a))),
        }
    } else {
        match args[0] {
            Val::Int(n) => if n == 0 {
                Err(plain_err(span, "`code_char` argument 0: NUL (U+0000) is not allowed in text"@))
            } else if !is_scalar(n) {
                Err(plain_err(span, "`code_char` argument "@ + int_decimal(n as int) + " is not a Unicode scalar value"@))
            } else {
                Ok(Val::Text(seq![(n as u32) as char]))
            },
            a => Err(plain_err(span, want_int_msg(name, a))),
        }
    }
}

/// Run a text built-in: `concat(Text, Text)`, `text_len(Text)`,
/// `char_at(Text, Int)`, `substring(Text, Int, Int)`, `char_code(Text)`,
/// `code_char(Int)`.
pub fn builtin_text(name: &str, args: &Vec<Value>, span: Span) -> (r: Result<Value, RuntimeError>)
    requires
        is_text_builtin(name@),
    ensures
        res_view(r) == text_builtin_v(name@, vviews(args@), span),
{
    proof {
        reveal_strlit("concat");
        reveal_strlit("text_len");
        reveal_strlit("char_at");
        reveal_strlit("substring");
        reveal_strlit("char_code");
        reveal_strlit("code_char");
        assert("concat"@.len() == 6);
        assert("text_len"@.len() == 8);
        assert("char_at"@.len() == 7);
        assert("substring"@.len() == 9 && "substring"@[0] == 's');
        assert("char_code"@.len() == 9 && "char_code"@[0] == 'c' && "char_code"@[1] == 'h');
        assert("code_char"@.len() == 9 && "code_char"@[0] == 'c' && "code_char"@[1] == 'o');
        lemma_vviews(args@);
    }
    let arity: usize = if str_eq(name, "concat") || str_eq(name, "char_at") {
        2
    } else if str_eq(name, "substring") {
        3
    } else {
        1
    };
    if args.len() != arity {
        let a = usize_text(arity);
        let g = usize_text(args.len());
        let m = cat(&["`", name, "` expects ", a.as_str(), " argument(s), got ", g.as_str()]);
        proof {
            reveal_with_fuel(crate::text::joined, 7);
        }
        return Err(RuntimeError::with_message(span, m));
    }
    if str_eq(name, "concat") {
        let a = text_arg(name, &args[0], span)?;
        let b = text_arg(name, &args[1], span)?;
        let mut s = String::new();
        push_str(&mut s, a.as_str());
        push_str(&mut s, b.as_str());
        return Ok(Value::Text(s));
    }
    if str_eq(name, "text_len") {
        let a = text_arg(name, &args[0], span)?;
        let n = a.as_str().unicode_len();
        if (n as u64) > 0x7fff_ffff_ffff_ffffu64 {
            return Err(RuntimeError::new(span, "`text_len` result does not fit in an Int"));
        }
        return Ok(Value::Int(n as i64));
    }
    if str_eq(name, "char_at") {
        let a = text_arg(name, &args[0], span)?;
        let i = int_arg(name, &args[1], span)?;
        let n = a.as_str().unicode_len();
        if i < 0 || (i as u64) >= (n as u64) {
            let k = i64_text(i);
            let m = cat(&["`char_at` index ", k.as_str(), " is out of range"]);
            proof {
                reveal_with_fuel(crate::text::joined, 4);
            }
            return Err(RuntimeError::with_message(span, m));
        }
        let c = a.as_str().get_char(i as usize);
        let mut s = String::new();
        push_char(&mut s, c);
        assert(s@ =~= seq![a@[i as int]]);
        return Ok(Value::Text(s));
    }
    if str_eq(name, "substring") {
        let a = text_arg(name, &args[0], span)?;
        let start = int_arg(name, &args[1], span)?;
        let end = int_arg(name, &args[2], span)?;
        let n = a.as_str().unicode_len();
        if start < 0 || end < start || (end as u64) > (n as u64) {
            let s = i64_text(start);
            let e = i64_text(end);
            let l = usize_text(n);
            let m = cat(&["`substring` range ", s.as_str(), "..", e.as_str(), " is out of bounds (len ", l.as_str(), ")"]);
            proof {
                reveal_with_fuel(crate::text::joined, 8);
            }
            return Err(RuntimeError::with_message(span, m));
        }
        let mut out = String::new();
        let mut k: usize = start as usize;
        let stop: usize = end as usize;
        while k < stop
            invariant
                start as int <= k <= stop,
                stop == end,
                stop <= n,
                n == a@.len(),
                0 <= start,
                out@ == a@.subrange(start as int, k as int),
            decreases stop - k,
        {
            let c = a.as_str().get_char(k);
            push_char(&mut out, c);
            assert(out@ =~= a@.subrange(start as int, k + 1));
            k = k + 1;
        }
        return Ok(Value::Text(out));
    }
    if str_eq(name, "char_code") {
        let a = text_arg(name, &args[0], span)?;
        if a.as_str().unicode_len() == 0 {
            return Err(RuntimeError::new(span, "`char_code` of empty text: there is no first character"));
        }
        let c = a.as_str().get_char(0);
        return Ok(Value::Int((c as u32) as i64));
    }
    let n = int_arg(name, &args[0], span)?;
    if n == 0 {
        return Err(RuntimeError::new(span, "`code_char` argument 0: NUL (U+0000) is not allowed in text"));
    }
    let bad = !(0 <= n && n <= 0x10FFFF);
    let c = if bad { None } else { char_of(n as u32) };
    match c {
        Some(ch) => {
            let mut s = String::new();
            push_char(&mut s, ch);
            assert(s@ =~= seq![(n as u32) as char]);
            Ok(Value::Text(s))
        },
        None => {
            let k = i64_text(n);
            let m = cat(&["`code_char` argument ", k.as_str(), " is not a Unicode scalar value"]);
            proof {
                reveal_with_fuel(crate::text::joined, 4);
            }
            Err(RuntimeError::with_message(span, m))
        },
    }
}

/// The arity of the text built-in `name`, or `None` when `name` is none.
pub fn text_builtin_arity_of(name: &str) -> (r: Option<usize>)
    ensures
        match r {
            Some(k) => is_text_builtin(name@) && k == text_builtin_arity(name@),
            None => !is_text_builtin(name@),
        },
{
    proof {
        reveal_strlit("concat");
        reveal_strlit("text_len");
        reveal_strlit("char_at");
        reveal_strlit("substring");
        reveal_strlit("char_code");
        reveal_strlit("code_char");
        assert("concat"@.len() == 6);
        assert("text_len"@.len() == 8);
        assert("char_at"@.len() == 7);
        assert("substring"@.len() == 9 && "substring"@[0] == 's');
        assert("char_code"@.len() == 9 && "char_code"@[0] == 'c' && "char_code"@[1] == 'h');
        assert("code_char"@.len() == 9 && "code_char"@[0] == 'c' && "code_char"@[1] == 'o');
    }
    if str_eq(name, "concat") || str_eq(name, "char_at") {
        Some(2)
    } else if str_eq(name, "substring") {
        Some(3)
    } else if str_eq(name, "text_len") || str_eq(name, "char_code") || str_eq(name, "code_char") {
        Some(1)
    } else {
        None
    }
}

// --- Laws of integer arithmetic ---------------------------------------------

/// The absolute value of an integer.
pub open spec fn abs_int(x: int) -> int {
    if x < 0 {
        -x
    } else {
        x
    }
}

/// `q` and `r` are the truncated quotient and remainder of `a` by `b`: `a` is
/// `q * b + r`, the remainder is smaller than the divisor in magnitude, and a
/// nonzero remainder has the sign of `a`.
pub open spec fn truncated_division(a: int, b: int, q: int, r: int) -> bool {
    &&& a == q * b + r
    &&& abs_int(r) < abs_int(b)
    &&& (r == 0 || (r < 0) == (a < 0))
}

proof fn lemma_pos_divmod(p: int, e: int)
    requires
        p >= 0,
        e >= 1,
    ensures
        p == e * (p / e) + p % e,
        0 <= p % e < e,
        0 <= p / e <= p,
        e >= 2 ==> 2 * (p / e) <= p,
{
    vstd::arithmetic::div_mod::lemma_fundamental_div_mod(p, e);
    vstd::arithmetic::div_mod::lemma_mod_bound(p, e);
    let q = p / e;
    let m = p % e;
    assert(0 <= q && q <= p && (e >= 2 ==> 2 * q <= p)) by (nonlinear_arith)
        requires
            p == e * q + m,
            0 <= m < e,
            e >= 1,
            p >= 0,
    ;
}

/// Integer division and remainder truncate toward zero, as Rust's do: on
/// `Int`s `a` and `b != 0` (other than the one overflowing pair `MIN / -1`),
/// `a / b` and `a % b` both succeed, and their results are the truncated
/// quotient and remainder of `a` by `b`.
pub proof fn law_division_truncates(a: i64, b: i64, span: Span)
    requires
        b != 0,
        !(a == i64::MIN && b == -1),
    ensures
        arith_v(BinaryOp::Div, Val::Int(a), Val::Int(b), span) matches Ok(Val::Int(q))
            && arith_v(BinaryOp::Rem, Val::Int(a), Val::Int(b), span) matches Ok(Val::Int(r))
            && truncated_division(a as int, b as int, q as int, r as int),
{
    let x = a as int;
    let d = b as int;
    if x == 0 {
        assert(truncated_division(x, d, 0, 0));
    } else if x > 0 && d > 0 {
        lemma_pos_divmod(x, d);
        assert(truncated_division(x, d, x / d, x % d));
    } else if x < 0 && d < 0 {
        lemma_pos_divmod(-x, -d);
        let q = (-x) / (-d);
        let m = (-x) % (-d);
        assert(x == q * d + (-m)) by (nonlinear_arith)
            requires
                -x == (-d) * q + m,
        ;
        assert(d == -1 ==> q == -x);
        assert(truncated_division(x, d, q, -m));
    } else if x < 0 {
        lemma_pos_divmod(-x, d);
        let q = (-x) / d;
        let m = (-x) % d;
        assert(x == (-q) * d + (-m)) by (nonlinear_arith)
            requires
                -x == d * q + m,
        ;
        assert(truncated_division(x, d, -q, -m));
    } else {
        lemma_pos_divmod(x, -d);
        let q = x / (-d);
        let m = x % (-d);
        assert(x == (-q) * d + m) by (nonlinear_arith)
            requires
                x == (-d) * q + m,
        ;
        assert(truncated_division(x, d, -q, m));
    }
}

/// Addition, subtraction and multiplication of two `Int`s give the exact
/// result when it fits in 64 bits, and the error "integer overflow"
/// otherwise.
pub proof fn law_checked_ring_operations(a: i64, b: i64, span: Span)
    ensures
        arith_v(BinaryOp::Add, Val::Int(a), Val::Int(b), span) == if i64::MIN <= a + b <= i64::MAX {
            Ok::<Val, ErrV>(Val::Int((a + b) as i64))
        } else {
            Err(plain_err(span, "integer overflow"@))
        },
        arith_v(BinaryOp::Sub, Val::Int(a), Val::Int(b), span) == if i64::MIN <= a - b <= i64::MAX {
            Ok::<Val, ErrV>(Val::Int((a - b) as i64))
        } else {
            Err(plain_err(span, "integer overflow"@))
        },
        arith_v(BinaryOp::Mul, Val::Int(a), Val::Int(b), span) == if i64::MIN <= a * b <= i64::MAX {
            Ok::<Val, ErrV>(Val::Int((a * b) as i64))
        } else {
            Err(plain_err(span, "integer overflow"@))
        },
{
}

/// The orderings, equality and the unary operators on plain values mean what
/// they say: `<`, `<=`, `>`, `>=` and `==`/`!=` compare the integers, `-`
/// negates (failing only on the one unnegatable value) and `!` flips.
pub proof fn law_comparisons_and_unary_operators(a: i64, b: i64, p: bool, span: Span)
    ensures
        compare_v(BinaryOp::Lt, Val::Int(a), Val::Int(b), span) == Ok::<Val, ErrV>(Val::Bool(a < b)),
        compare_v(BinaryOp::Le, Val::Int(a), Val::Int(b), span) == Ok::<Val, ErrV>(Val::Bool(a <= b)),
        compare_v(BinaryOp::Gt, Val::Int(a), Val::Int(b), span) == Ok::<Val, ErrV>(Val::Bool(a > b)),
        compare_v(BinaryOp::Ge, Val::Int(a), Val::Int(b), span) == Ok::<Val, ErrV>(Val::Bool(a >= b)),
        val_eq(Val::Int(a), Val::Int(b)) == Ok::<bool, (Val, Val)>(a == b),
        val_eq(Val::Bool(p), Val::Bool(p)) == Ok::<bool, (Val, Val)>(true),
        a != i64::MIN ==> unary_v(UnaryOp::Neg, Val::Int(a), span) == Ok::<Val, ErrV>(Val::Int(-a as i64)),
        unary_v(UnaryOp::Not, Val::Bool(p), span) == Ok::<Val, ErrV>(Val::Bool(!p)),
{
}

proof fn lemma_text_builtin_names()
    ensures
        "concat"@ != "text_len"@,
        "concat"@ != "char_at"@,
        "concat"@ != "substring"@,
        "concat"@ != "char_code"@,
        "concat"@ != "code_char"@,
        "text_len"@ != "char_at"@,
        "text_len"@ != "substring"@,
        "text_len"@ != "char_code"@,
        "text_len"@ != "code_char"@,
        "char_at"@ != "substring"@,
        "char_at"@ != "char_code"@,
        "char_at"@ != "code_char"@,
        "substring"@ != "char_code"@,
        "substring"@ != "code_char"@,
        "char_code"@ != "code_char"@,
{
    reveal_strlit("concat");
    reveal_strlit("text_len");
    reveal_strlit("char_at");
    reveal_strlit("substring");
    reveal_strlit("char_code");
    reveal_strlit("code_char");
    assert("concat"@[0] != "text_len"@[0]);
    assert("concat"@[1] != "char_at"@[1]);
    assert("concat"@[0] != "substring"@[0]);
    assert("concat"@[1] != "char_code"@[1]);
    assert("concat"@[2] != "code_char"@[2]);
    assert("text_len"@[0] != "char_at"@[0]);
    assert("text_len"@[0] != "substring"@[0]);
    assert("text_len"@[0] != "char_code"@[0]);
    assert("text_len"@[0] != "code_char"@[0]);
    assert("char_at"@[0] != "substring"@[0]);
    assert("char_at"@.len() != "char_code"@.len());
    assert("char_at"@.len() != "code_char"@.len());
    assert("substring"@[0] != "char_code"@[0]);
    assert("substring"@[0] != "code_char"@[0]);
    assert("char_code"@[1] != "code_char"@[1]);
}

/// The text built-ins agree with one another: `concat` appends, `text_len`
/// counts the characters, `char_at` is the one-character `substring` at
/// that index, the whole range is the text itself, a text is the `concat`
/// of its two parts split anywhere, and `code_char` inverts `char_code` on
/// the first character (every character but NUL, code 0).
pub proof fn law_text_builtins_agree(a: Seq<char>, b: Seq<char>, i: i64, span: Span)
    requires
        a.len() < i64::MAX,
    ensures
        text_builtin_v("concat"@, seq![Val::Text(a), Val::Text(b)], span) == Ok::<Val, ErrV>(Val::Text(a + b)),
        text_builtin_v("text_len"@, seq![Val::Text(a)], span) == Ok::<Val, ErrV>(Val::Int(a.len() as i64)),
        text_builtin_v("substring"@, seq![Val::Text(a), Val::Int(0), Val::Int(a.len() as i64)], span) == Ok::<Val, ErrV>(
            Val::Text(a),
        ),
        0 <= i < a.len() ==> text_builtin_v("char_at"@, seq![Val::Text(a), Val::Int(i)], span) == text_builtin_v(
            "substring"@,
            seq![Val::Text(a), Val::Int(i), Val::Int((i + 1) as i64)],
            span,
        ),
        0 <= i <= a.len() ==> (text_builtin_v("substring"@, seq![Val::Text(a), Val::Int(0), Val::Int(i)], span) matches Ok(
            Val::Text(x),
        ) && text_builtin_v("substring"@, seq![Val::Text(a), Val::Int(i), Val::Int(a.len() as i64)], span) matches Ok(
            Val::Text(y),
        ) && x + y == a),
        a.len() > 0 && (a[0] as u32) != 0 ==> (text_builtin_v("char_code"@, seq![Val::Text(a)], span) matches Ok(Val::Int(c))
            && text_builtin_v("code_char"@, seq![Val::Int(c)], span) == Ok::<Val, ErrV>(Val::Text(seq![a[0]]))),
{
    lemma_text_builtin_names();
    assert(a.subrange(0, a.len() as int) =~= a);
    if 0 <= i < a.len() {
        assert(a.subrange(i as int, i + 1) =~= seq![a[i as int]]);
    }
    if 0 <= i <= a.len() {
        assert(a.subrange(0, i as int) + a.subrange(i as int, a.len() as int) =~= a);
    }
    if a.len() > 0 && (a[0] as u32) != 0 {
        let n = (a[0] as u32) as i64;
        vstd::utf8::char_is_scalar(a[0]);
        vstd::utf8::char_u32_cast(a[0], a[0] as u32);
        assert(is_scalar(n));
        assert(((n as u32) as char) == a[0]);
    }
}

} // verus!
