//! The native back end: C source text from a lowered, linked module.
//!
//! The tree-walking interpreter is the semantic reference; the emitted
//! program reproduces its values, its printing and its runtime errors. The
//! back end reads the lowered tree, so contracts arrive as `Stmt::Check`
//! nodes and become traps carrying the interpreter's blame message.
//!
//! The translation is stated as spec functions over the tree (`c_expr`,
//! `c_stmts`, `c_module`, ...): each emitter returns exactly that text, or
//! the error the specification names for the first construct it refuses.

use vstd::prelude::*;
use crate::ast::{BinaryOp, Block, Expr, Function, Item, LiteralKind, MatchArm, Module, Param, Pattern, Stmt, TypeExpr, UnaryOp};
use crate::diagnostic::Blame;
use crate::span::Span;
use crate::text::{decimal, digit, digit_char, int_decimal, push_char, push_i64, push_str, push_usize, string_is, copy_string, names_view};
use crate::types::fn_names;

verus! {

/// A construct the back end refuses, anchored to its source span.
#[derive(Debug, Clone, PartialEq, Eq)]
pub struct CodegenError {
    pub message: String,
    pub span: Span,
}

/// The start of the C runtime every program begins with: the tagged
/// `WValue`, its constructors and value printing. The whole runtime
/// (`c_prelude`) reproduces the interpreter's semantics: checked arithmetic,
/// orderings, structural equality, the text built-ins and their traps.
pub const PRELUDE: &'static str = r#"#include <stdint.h>
#include <stdio.h>
#include <stdlib.h>
#include <string.h>

typedef enum { W_INT, W_BOOL, W_UNIT, W_TEXT, W_VARIANT, W_CAP, W_FN } WTag;
typedef struct WValue WValue;
typedef WValue (*WFn)(void);
struct WValue {
    WTag tag;
    int64_t i;
    const char *s;
    size_t n;
    WValue *fields;
    WFn f;
};
typedef struct { char *p; size_t len; size_t cap; } WBuf;

static void w_trap(const char *msg) { fprintf(stderr, "%s\n", msg); exit(1); }
static WValue w_make(WTag tag) { WValue v; memset(&v, 0, sizeof v); v.tag = tag; return v; }
static WValue w_int(int64_t x) { WValue v = w_make(W_INT); v.i = x; return v; }
static WValue w_bool(int b) { WValue v = w_make(W_BOOL); v.i = b ? 1 : 0; return v; }
static WValue w_unit(void) { return w_make(W_UNIT); }
static WValue w_text(const char *s) { WValue v = w_make(W_TEXT); v.s = s; return v; }
static WValue w_cap(const char *authority) { WValue v = w_make(W_CAP); v.s = authority; return v; }
static WValue w_fn(WFn f, const char *name) { WValue v = w_make(W_FN); v.f = f; v.s = name; return v; }
static WValue w_variant(const char *name, size_t n, const WValue *fields) {
    WValue v = w_make(W_VARIANT);
    v.s = name;
    v.n = n;
    if (n > 0) {
        v.fields = malloc(n * sizeof(WValue));
        if (!v.fields) w_trap("out of memory");
        memcpy(v.fields, fields, n * sizeof(WValue));
    }
    return v;
}
static int w_is(WValue v, const char *name, size_t n) { return v.tag == W_VARIANT && v.n == n && strcmp(v.s, name) == 0; }
static int w_as_bool(WValue v) { return v.i != 0; }

static void w_put(WBuf *b, const char *s) {
    size_t k = strlen(s);
    if (b->len + k + 1 > b->cap) {
        size_t c = b->cap ? b->cap : 64;
        while (b->len + k + 1 > c) c *= 2;
        b->p = realloc(b->p, c);
        if (!b->p) w_trap("out of memory");
        b->cap = c;
    }
    memcpy(b->p + b->len, s, k + 1);
    b->len += k;
}
static void w_show(WBuf *b, WValue v) {
    char num[32];
    size_t k;
    switch (v.tag) {
        case W_INT: snprintf(num, sizeof num, "%lld", (long long) v.i); w_put(b, num); break;
        case W_BOOL: w_put(b, v.i ? "true" : "false"); break;
        case W_UNIT: w_put(b, "()"); break;
        case W_TEXT: w_put(b, v.s); break;
        case W_CAP: w_put(b, "<capability "); w_put(b, v.s); w_put(b, ">"); break;
        case W_FN: w_put(b, "<function "); w_put(b, v.s); w_put(b, ">"); break;
        case W_VARIANT:
            w_put(b, v.s);
            if (v.n > 0) {
                w_put(b, "(");
                for (k = 0; k < v.n; k++) {
                    if (k > 0) w_put(b, ", ");
                    w_show(b, v.fields[k]);
                }
                w_put(b, ")");
            }
            break;
    }
}
static char *w_render(WValue v) { WBuf b = { NULL, 0, 0 }; w_put(&b, ""); w_show(&b, v); return b.p; }
static WValue w_print(WValue v) { char *s = w_render(v); printf("%s\n", s); free(s); return w_unit(); }
static void w_no_match(WValue v) { char *s = w_render(v); fprintf(stderr, "no match arm covers the value `%s`\n", s); exit(1); }

"#;

/// The rest of the C runtime: structural equality, the text built-ins and
/// their traps.
pub const PRELUDE_TAIL: &'static str = r#"static int w_equal(WValue a, WValue b) {
    size_t k;
    if (a.tag != b.tag) return 0;
    switch (a.tag) {
        case W_INT: case W_BOOL: return a.i == b.i;
        case W_UNIT: return 1;
        case W_TEXT: case W_CAP: case W_FN: return strcmp(a.s, b.s) == 0;
        case W_VARIANT:
            if (a.n != b.n || strcmp(a.s, b.s) != 0) return 0;
            for (k = 0; k < a.n; k++) if (!w_equal(a.fields[k], b.fields[k])) return 0;
            return 1;
    }
    return 0;
}
static WValue w_eq(WValue a, WValue b) { return w_bool(w_equal(a, b)); }
static WValue w_ne(WValue a, WValue b) { return w_bool(!w_equal(a, b)); }

static size_t w_width(const char *p) { unsigned char c = (unsigned char) *p; return c < 0x80 ? 1 : c < 0xE0 ? 2 : c < 0xF0 ? 3 : 4; }
static int64_t w_count(const char *s) { int64_t n = 0; while (*s) { s += w_width(s); n++; } return n; }
static const char *w_nth(const char *s, int64_t k) { while (k > 0) { s += w_width(s); k--; } return s; }
static WValue w_copy(const char *from, size_t k) { char *p = malloc(k + 1); if (!p) w_trap("out of memory"); memcpy(p, from, k); p[k] = 0; return w_text(p); }
static WValue w_concat(WValue a, WValue b) {
    size_t x = strlen(a.s), y = strlen(b.s);
    char *p = malloc(x + y + 1);
    if (!p) w_trap("out of memory");
    memcpy(p, a.s, x);
    memcpy(p + x, b.s, y + 1);
    return w_text(p);
}
static WValue w_text_len(WValue a) { return w_int(w_count(a.s)); }
static WValue w_char_at(WValue a, WValue i) {
    const char *c;
    if (i.i < 0 || i.i >= w_count(a.s)) { fprintf(stderr, "`char_at` index %lld is out of range\n", (long long) i.i); exit(1); }
    c = w_nth(a.s, i.i);
    return w_copy(c, w_width(c));
}
static WValue w_substring(WValue a, WValue s, WValue e) {
    int64_t n = w_count(a.s);
    const char *from;
    const char *to;
    if (s.i < 0 || e.i < s.i || e.i > n) {
        fprintf(stderr, "`substring` range %lld..%lld is out of bounds (len %lld)\n", (long long) s.i, (long long) e.i, (long long) n);
        exit(1);
    }
    from = w_nth(a.s, s.i);
    to = w_nth(from, e.i - s.i);
    return w_copy(from, (size_t) (to - from));
}
static WValue w_char_code(WValue a) {
    const unsigned char *p = (const unsigned char *) a.s;
    if (!*p) w_trap("`char_code` of empty text: there is no first character");
    if (p[0] < 0x80) return w_int(p[0]);
    if (p[0] < 0xE0) return w_int(((int64_t) (p[0] & 0x1F) << 6) | (p[1] & 0x3F));
    if (p[0] < 0xF0) return w_int(((int64_t) (p[0] & 0x0F) << 12) | ((int64_t) (p[1] & 0x3F) << 6) | (p[2] & 0x3F));
    return w_int(((int64_t) (p[0] & 0x07) << 18) | ((int64_t) (p[1] & 0x3F) << 12) | ((int64_t) (p[2] & 0x3F) << 6) | (p[3] & 0x3F));
}
static WValue w_code_char(WValue n) {
    int64_t c = n.i;
    char *p;
    if (c == 0) w_trap("`code_char` argument 0: NUL (U+0000) is not allowed in text");
    if (c < 0 || c > 0x10FFFF || (c >= 0xD800 && c <= 0xDFFF)) {
        fprintf(stderr, "`code_char` argument %lld is not a Unicode scalar value\n", (long long) c);
        exit(1);
    }
    p = malloc(5);
    if (!p) w_trap("out of memory");
    if (c < 0x80) { p[0] = (char) c; p[1] = 0; }
    else if (c < 0x800) { p[0] = (char) (0xC0 | (c >> 6)); p[1] = (char) (0x80 | (c & 0x3F)); p[2] = 0; }
    else if (c < 0x10000) { p[0] = (char) (0xE0 | (c >> 12)); p[1] = (char) (0x80 | ((c >> 6) & 0x3F)); p[2] = (char) (0x80 | (c & 0x3F)); p[3] = 0; }
    else { p[0] = (char) (0xF0 | (c >> 18)); p[1] = (char) (0x80 | ((c >> 12) & 0x3F)); p[2] = (char) (0x80 | ((c >> 6) & 0x3F)); p[3] = (char) (0x80 | (c & 0x3F)); p[4] = 0; }
    return w_text(p);
}
static WValue w_sanitize(WValue x, WValue validator) {
    WValue ok = ((WValue (*)(WValue)) validator.f)(x);
    return w_as_bool(ok) ? w_variant("Some", 1, &x) : w_variant("None", 0, NULL);
}
"#;

/// The octal digit character for `d < 8`.
pub open spec fn octal_escape(c: char) -> Seq<char> {
    seq!['\\', digit_char(((c as u32) / 64) as nat), digit_char((((c as u32) / 8) % 8) as nat), digit_char(((c as u32) % 8) as nat)]
}

/// How one character appears inside a C string literal: backslash, quote
/// and the common control characters by their escapes, the other control
/// characters as three-digit octal escapes, anything else as itself.
pub open spec fn escape_char(c: char) -> Seq<char> {
    if c == '\\' {
        seq!['\\', '\\']
    } else if c == '"' {
        seq!['\\', '"']
    } else if c == '\n' {
        seq!['\\', 'n']
    } else if c == '\t' {
        seq!['\\', 't']
    } else if c == '\r' {
        seq!['\\', 'r']
    } else if (c as u32) < 0x20 || (c as u32) == 0x7f {
        octal_escape(c)
    } else {
        seq![c]
    }
}

/// The body of a C string literal holding `s`.
pub open spec fn escaped(s: Seq<char>) -> Seq<char>
    decreases s.len(),
{
    if s.len() == 0 {
        Seq::empty()
    } else {
        escaped(s.drop_last()) + escape_char(s.last())
    }
}

fn push_escaped_char(out: &mut String, c: char)
    ensures
        final(out)@ == old(out)@ + escape_char(c),
{
    if c == '\\' {
        push_char(out, '\\');
        push_char(out, '\\');
    } else if c == '"' {
        push_char(out, '\\');
        push_char(out, '"');
    } else if c == '\n' {
        push_char(out, '\\');
        push_char(out, 'n');
    } else if c == '\t' {
        push_char(out, '\\');
        push_char(out, 't');
    } else if c == '\r' {
        push_char(out, '\\');
        push_char(out, 'r');
    } else if (c as u32) < 0x20 || (c as u32) == 0x7f {
        let n = c as u32;
        push_char(out, '\\');
        push_char(out, digit((n / 64) as u64));
        push_char(out, digit(((n / 8) % 8) as u64));
        push_char(out, digit((n % 8) as u64));
    } else {
        push_char(out, c);
    }
    assert(final(out)@ =~= old(out)@ + escape_char(c));
}

/// Append `s` escaped for a C string literal.
fn push_escaped(out: &mut String, s: &str)
    ensures
        final(out)@ == old(out)@ + escaped(s@),
{
    let n = s.unicode_len();
    let mut i: usize = 0;
    while i < n
        invariant
            n == s@.len(),
            i <= n,
            out@ == old(out)@ + escaped(s@.subrange(0, i as int)),
        decreases n - i,
    {
        let c = s.get_char(i);
        push_escaped_char(out, c);
        proof {
            assert(s@.subrange(0, i + 1).drop_last() =~= s@.subrange(0, i as int));
        }
        i = i + 1;
    }
    assert(s@.subrange(0, n as int) =~= s@);
}

/// Whether a character may stand in a C identifier as it is.
pub open spec fn ident_char_ok(c: char) -> bool {
    ('a' <= c && c <= 'z') || ('A' <= c && c <= 'Z') || ('0' <= c && c <= '9')
}

/// A name made into C identifier characters: letters and digits stay, every
/// other character becomes `_`.
pub open spec fn c_ident(s: Seq<char>) -> Seq<char>
    decreases s.len(),
{
    if s.len() == 0 {
        Seq::empty()
    } else {
        c_ident(s.drop_last()).push(if ident_char_ok(s.last()) { s.last() } else { '_' })
    }
}

fn push_c_ident(out: &mut String, s: &str)
    ensures
        final(out)@ == old(out)@ + c_ident(s@),
{
    let n = s.unicode_len();
    let mut i: usize = 0;
    while i < n
        invariant
            n == s@.len(),
            i <= n,
            out@ == old(out)@ + c_ident(s@.subrange(0, i as int)),
        decreases n - i,
    {
        let c = s.get_char(i);
        let ok = ('a' <= c && c <= 'z') || ('A' <= c && c <= 'Z') || ('0' <= c && c <= '9');
        push_char(out, if ok { c } else { '_' });
        proof {
            assert(s@.subrange(0, i + 1).drop_last() =~= s@.subrange(0, i as int));
        }
        i = i + 1;
    }
    assert(s@.subrange(0, n as int) =~= s@);
}

/// The C name of a local binding or parameter.
pub open spec fn local_name(n: Seq<char>) -> Seq<char> {
    "v_"@ + c_ident(n)
}

/// The C name of a function. The prefix keeps a Writ `main` apart from C's.
pub open spec fn fn_cname(n: Seq<char>) -> Seq<char> {
    "wf_"@ + c_ident(n)
}

/// A quoted C string literal holding `s`.
pub open spec fn quoted(s: Seq<char>) -> Seq<char> {
    "\""@ + escaped(s) + "\""@
}

fn push_quoted(out: &mut String, s: &str)
    ensures
        final(out)@ == old(out)@ + quoted(s@),
{
    push_str(out, "\"");
    push_escaped(out, s);
    push_str(out, "\"");
}

/// Parts joined with a separator between neighbours.
pub open spec fn sep_join(parts: Seq<Seq<char>>, sep: Seq<char>) -> Seq<char>
    decreases parts.len(),
{
    if parts.len() == 0 {
        Seq::empty()
    } else if parts.len() == 1 {
        parts[0]
    } else {
        sep_join(parts.drop_last(), sep) + sep + parts.last()
    }
}

fn push_joined(out: &mut String, parts: &Vec<String>, sep: &str)
    ensures
        final(out)@ == old(out)@ + sep_join(names_view(parts@), sep@),
{
    let ghost ts = names_view(parts@);
    let n = parts.len();
    let mut i: usize = 0;
    while i < n
        invariant
            n == parts@.len(),
            ts == names_view(parts@),
            i <= n,
            out@ == old(out)@ + sep_join(ts.subrange(0, i as int), sep@),
        decreases n - i,
    {
        if i > 0 {
            push_str(out, sep);
        }
        push_str(out, parts[i].as_str());
        proof {
            assert(ts.subrange(0, i + 1).drop_last() =~= ts.subrange(0, i as int));
            if i == 0 {
                assert(ts.subrange(0, 1) =~= seq![parts@[0]@]);
            }
        }
        i = i + 1;
    }
    assert(ts.subrange(0, n as int) =~= ts);
}

/// A constructor of the module and its arity.
pub struct Ctor {
    pub name: String,
    pub arity: usize,
}

/// What the translation knows of the module: its function names and its
/// constructors, in declaration order.
pub struct Names {
    pub fns: Vec<String>,
    pub ctors: Vec<Ctor>,
}

/// An error the specification names: where, and what it says.
pub type CgErr = (Span, Seq<char>);

/// What the translation knows of a module, as plain values: the function
/// names, and each constructor with its arity.
pub type Cx = (Seq<Seq<char>>, Seq<(Seq<char>, nat)>);

impl View for Names {
    type V = Cx;

    open spec fn view(&self) -> Cx {
        (names_view(self.fns@), self.ctors@.map_values(|c: Ctor| (c.name@, c.arity as nat)))
    }
}

/// The arity of constructor `n`; the last declaration of a name wins.
pub open spec fn ctor_lookup(cs: Seq<(Seq<char>, nat)>, n: Seq<char>) -> Option<nat>
    decreases cs.len(),
{
    if cs.len() == 0 {
        None
    } else if cs.last().0 == n {
        Some(cs.last().1)
    } else {
        ctor_lookup(cs.drop_last(), n)
    }
}

/// Whether `n` names a function of the module.
pub open spec fn is_fn(cx: Cx, n: Seq<char>) -> bool {
    cx.0.contains(n)
}

/// An emitter's result agrees with the specified one.
pub open spec fn emitted(r: Result<String, CodegenError>, s: Result<Seq<char>, CgErr>) -> bool {
    match (r, s) {
        (Ok(a), Ok(b)) => a@ == b,
        (Err(e), Err(x)) => e.span == x.0 && e.message@ == x.1,
        _ => false,
    }
}

/// A literal as a C value.
pub open spec fn c_literal(k: LiteralKind) -> Seq<char> {
    match k {
        LiteralKind::Int(n) => "w_int("@ + int_decimal(n as int) + ")"@,
        LiteralKind::Bool(b) => if b { "w_bool(1)"@ } else { "w_bool(0)"@ },
        LiteralKind::Text(t) => "w_text("@ + quoted(t@) + ")"@,
    }
}

/// A payload-free variant value.
pub open spec fn nullary(n: Seq<char>) -> Seq<char> {
    "w_variant("@ + quoted(n) + ", 0, NULL)"@
}

/// A name in expression position: a local, else a payload-free
/// constructor, else a function value; otherwise it is unbound.
pub open spec fn c_name(n: Seq<char>, span: Span, cx: Cx, scope: Seq<Seq<char>>) -> Result<Seq<char>, CgErr> {
    if scope.contains(n) {
        Ok(local_name(n))
    } else if ctor_lookup(cx.1, n) == Some(0nat) {
        Ok(nullary(n))
    } else if is_fn(cx, n) {
        Ok("w_fn((WFn)"@ + fn_cname(n) + ", "@ + quoted(n) + ")"@)
    } else {
        Err((span, "unbound variable `"@ + n + "`"@))
    }
}

// --- The operator helpers of the C runtime ------------------------------------

/// A checked `+`, `-` or `*` helper named `name`, using the overflow-checking
/// builtin `op` (`add`, `sub`, `mul`).
pub open spec fn arith_helper_def(name: Seq<char>, op: Seq<char>) -> Seq<char> {
    "static WValue "@ + name + "(WValue a, WValue b) { int64_t r; if (__builtin_"@ + op
        + "_overflow(a.i, b.i, &r)) w_trap(\"integer overflow\"); return w_int(r); }\n"@
}

/// A checked `/` or `%` helper named `name`: it traps with `zero` on a zero
/// divisor and on the overflowing `MIN / -1`, else applies C's `sym`.
pub open spec fn divrem_helper_def(name: Seq<char>, zero: Seq<char>, sym: Seq<char>) -> Seq<char> {
    "static WValue "@ + name + "(WValue a, WValue b) { if (b.i == 0) w_trap(\""@ + zero
        + "\"); if (a.i == INT64_MIN && b.i == -1) w_trap(\"integer overflow\"); return w_int(a.i "@ + sym + " b.i); }\n"@
}

/// A checked negation helper named `name`.
pub open spec fn neg_helper_def(name: Seq<char>) -> Seq<char> {
    "static WValue "@ + name
        + "(WValue a) { int64_t r; if (__builtin_sub_overflow((int64_t) 0, a.i, &r)) w_trap(\"integer overflow negating value\"); return w_int(r); }\n"@
}

/// A logical negation helper named `name`.
pub open spec fn not_helper_def(name: Seq<char>) -> Seq<char> {
    "static WValue "@ + name + "(WValue a) { return w_bool(a.i == 0); }\n"@
}

/// An ordering helper named `name`: C's relation `sym` on the two integers.
pub open spec fn order_helper_def(name: Seq<char>, sym: Seq<char>) -> Seq<char> {
    "static WValue "@ + name + "(WValue a, WValue b) { return w_bool(a.i "@ + sym + " b.i); }\n"@
}

/// The binary integer helpers of the C runtime, in order, each defined by
/// name with what it computes (the unary ones stand among them).
pub open spec fn helper_list() -> Seq<Seq<char>> {
    seq![
        arith_helper_def("w_add"@, "add"@),
        arith_helper_def("w_sub"@, "sub"@),
        arith_helper_def("w_mul"@, "mul"@),
        divrem_helper_def("w_div"@, "division by zero"@, "/"@),
        divrem_helper_def("w_rem"@, "remainder by zero"@, "%"@),
        neg_helper_def("w_neg"@),
        not_helper_def("w_not"@),
        order_helper_def("w_lt"@, "<"@),
        order_helper_def("w_le"@, "<="@),
        order_helper_def("w_gt"@, ">"@),
        order_helper_def("w_ge"@, ">="@),
    ]
}

/// The helpers' text, one after another.
pub open spec fn operator_helpers() -> Seq<char> {
    crate::text::joined(helper_list())
}

/// The whole C runtime every program starts with.
pub open spec fn c_prelude() -> Seq<char> {
    PRELUDE@ + operator_helpers() + PRELUDE_TAIL@
}

fn push_arith_helper(out: &mut String, name: &str, op: &str)
    ensures
        final(out)@ == old(out)@ + arith_helper_def(name@, op@),
{
    let ghost o = out@;
    push_str(out, "static WValue ");
    push_str(out, name);
    push_str(out, "(WValue a, WValue b) { int64_t r; if (__builtin_");
    push_str(out, op);
    push_str(out, "_overflow(a.i, b.i, &r)) w_trap(\"integer overflow\"); return w_int(r); }\n");
    assert(out@ =~= o + arith_helper_def(name@, op@));
}

fn push_divrem_helper(out: &mut String, name: &str, zero: &str, sym: &str)
    ensures
        final(out)@ == old(out)@ + divrem_helper_def(name@, zero@, sym@),
{
    let ghost o = out@;
    push_str(out, "static WValue ");
    push_str(out, name);
    push_str(out, "(WValue a, WValue b) { if (b.i == 0) w_trap(\"");
    push_str(out, zero);
    push_str(out, "\"); if (a.i == INT64_MIN && b.i == -1) w_trap(\"integer overflow\"); return w_int(a.i ");
    push_str(out, sym);
    push_str(out, " b.i); }\n");
    assert(out@ =~= o + divrem_helper_def(name@, zero@, sym@));
}

fn push_order_helper(out: &mut String, name: &str, sym: &str)
    ensures
        final(out)@ == old(out)@ + order_helper_def(name@, sym@),
{
    let ghost o = out@;
    push_str(out, "static WValue ");
    push_str(out, name);
    push_str(out, "(WValue a, WValue b) { return w_bool(a.i ");
    push_str(out, sym);
    push_str(out, " b.i); }\n");
    assert(out@ =~= o + order_helper_def(name@, sym@));
}

fn push_unary_helpers(out: &mut String)
    ensures
        final(out)@ == old(out)@ + neg_helper_def("w_neg"@) + not_helper_def("w_not"@),
{
    let ghost o = out@;
    push_str(out, "static WValue ");
    push_str(out, "w_neg");
    push_str(
        out,
        "(WValue a) { int64_t r; if (__builtin_sub_overflow((int64_t) 0, a.i, &r)) w_trap(\"integer overflow negating value\"); return w_int(r); }\n",
    );
    push_str(out, "static WValue ");
    push_str(out, "w_not");
    push_str(out, "(WValue a) { return w_bool(a.i == 0); }\n");
    assert(out@ =~= o + neg_helper_def("w_neg"@) + not_helper_def("w_not"@));
}

/// Append the whole C runtime.
fn push_prelude(out: &mut String)
    ensures
        final(out)@ == old(out)@ + c_prelude(),
{
    let ghost o = out@;
    push_str(out, PRELUDE);
    push_arith_helper(out, "w_add", "add");
    push_arith_helper(out, "w_sub", "sub");
    push_arith_helper(out, "w_mul", "mul");
    push_divrem_helper(out, "w_div", "division by zero", "/");
    push_divrem_helper(out, "w_rem", "remainder by zero", "%");
    push_unary_helpers(out);
    push_order_helper(out, "w_lt", "<");
    push_order_helper(out, "w_le", "<=");
    push_order_helper(out, "w_gt", ">");
    push_order_helper(out, "w_ge", ">=");
    push_str(out, PRELUDE_TAIL);
    proof {
        reveal_with_fuel(crate::text::joined, 12);
        assert(out@ =~= o + c_prelude());
    }
}

/// `s` holds `t` somewhere.
pub open spec fn has_text(s: Seq<char>, t: Seq<char>) -> bool {
    exists|i: int| 0 <= i && i + t.len() <= s.len() && #[trigger] s.subrange(i, i + t.len()) == t
}

proof fn lemma_has_extend(x: Seq<char>, y: Seq<char>, t: Seq<char>)
    requires
        has_text(x, t),
    ensures
        has_text(x + y, t),
        has_text(y + x, t),
{
    let i = choose|i: int| 0 <= i && i + t.len() <= x.len() && #[trigger] x.subrange(i, i + t.len()) == t;
    assert((x + y).subrange(i, i + t.len()) =~= t);
    assert((y + x).subrange(y.len() + i, y.len() + i + t.len()) =~= t);
}

proof fn lemma_has_whole(t: Seq<char>)
    ensures
        has_text(t, t),
{
    let z: int = 0;
    assert(t.subrange(z, z + t.len()) =~= t);
}

/// Each piece of a list is found in the list's pieces put together.
proof fn lemma_has_piece(ps: Seq<Seq<char>>, k: int)
    requires
        0 <= k < ps.len(),
    ensures
        has_text(crate::text::joined(ps), ps[k]),
    decreases ps.len(),
{
    let last = ps.len() - 1;
    if k == last {
        lemma_has_whole(ps[k]);
        lemma_has_extend(ps[k], crate::text::joined(ps.drop_last()), ps[k]);
    } else {
        lemma_has_piece(ps.drop_last(), k);
        assert(ps.drop_last()[k] == ps[k]);
        lemma_has_extend(crate::text::joined(ps.drop_last()), ps[last], ps[k]);
    }
}

/// What the C helper for a strict integer operator must compute: the checked
/// builtin `add`/`sub`/`mul`, C's `/` or `%` behind the zero and overflow
/// traps, or C's relation `<`, `<=`, `>`, `>=`.
pub open spec fn computes(name: Seq<char>, op: BinaryOp) -> Seq<char> {
    match op {
        BinaryOp::Add => arith_helper_def(name, "add"@),
        BinaryOp::Sub => arith_helper_def(name, "sub"@),
        BinaryOp::Mul => arith_helper_def(name, "mul"@),
        BinaryOp::Div => divrem_helper_def(name, "division by zero"@, "/"@),
        BinaryOp::Rem => divrem_helper_def(name, "remainder by zero"@, "%"@),
        BinaryOp::Lt => order_helper_def(name, "<"@),
        BinaryOp::Le => order_helper_def(name, "<="@),
        BinaryOp::Gt => order_helper_def(name, ">"@),
        _ => order_helper_def(name, ">="@),
    }
}

/// The unary operators are emitted as calls of the runtime helpers that
/// compute them: `-` the checked negation, `!` the logical negation.
pub proof fn law_unary_helpers_compute_their_operator(op: UnaryOp)
    ensures
        has_text(
            c_prelude(),
            match op {
                UnaryOp::Neg => neg_helper_def(unary_helper(op)),
                UnaryOp::Not => not_helper_def(unary_helper(op)),
            },
        ),
{
    let k: int = match op {
        UnaryOp::Neg => 5,
        UnaryOp::Not => 6,
    };
    let d = match op {
        UnaryOp::Neg => neg_helper_def(unary_helper(op)),
        UnaryOp::Not => not_helper_def(unary_helper(op)),
    };
    assert(helper_list()[k] == d);
    lemma_has_piece(helper_list(), k);
    lemma_has_extend(operator_helpers(), PRELUDE@, d);
    lemma_has_extend(PRELUDE@ + operator_helpers(), PRELUDE_TAIL@, d);
}

/// Every strict integer operator is emitted as a call of the runtime helper
/// that computes it: the C runtime every program starts with defines the
/// helper `binary_helper(op)` names as exactly that operator (`>=` as C's
/// `a.i >= b.i`, `%` as C's `a.i % b.i` behind the traps, `+` with the
/// overflow-checking add, ...), the same relations the interpreter uses.
pub proof fn law_operator_helpers_compute_their_operator(op: BinaryOp, a: i64, b: i64)
    requires
        op is Add || op is Sub || op is Mul || op is Div || op is Rem || op is Lt || op is Le || op is Gt || op is Ge,
    ensures
        has_text(c_prelude(), computes(binary_helper(op), op)),
        crate::ops::order_holds(BinaryOp::Lt, a, b) == (a < b),
        crate::ops::order_holds(BinaryOp::Le, a, b) == (a <= b),
        crate::ops::order_holds(BinaryOp::Gt, a, b) == (a > b),
        crate::ops::order_holds(BinaryOp::Ge, a, b) == (a >= b),
{
    let k: int = match op {
        BinaryOp::Add => 0,
        BinaryOp::Sub => 1,
        BinaryOp::Mul => 2,
        BinaryOp::Div => 3,
        BinaryOp::Rem => 4,
        BinaryOp::Lt => 7,
        BinaryOp::Le => 8,
        BinaryOp::Gt => 9,
        _ => 10,
    };
    assert(helper_list()[k] == computes(binary_helper(op), op));
    lemma_has_piece(helper_list(), k);
    lemma_has_extend(operator_helpers(), PRELUDE@, computes(binary_helper(op), op));
    lemma_has_extend(PRELUDE@ + operator_helpers(), PRELUDE_TAIL@, computes(binary_helper(op), op));
}

/// The runtime helper of a strict binary operator.
pub open spec fn binary_helper(op: BinaryOp) -> Seq<char> {
    match op {
        BinaryOp::Add => "w_add"@,
        BinaryOp::Sub => "w_sub"@,
        BinaryOp::Mul => "w_mul"@,
        BinaryOp::Div => "w_div"@,
        BinaryOp::Rem => "w_rem"@,
        BinaryOp::Lt => "w_lt"@,
        BinaryOp::Le => "w_le"@,
        BinaryOp::Gt => "w_gt"@,
        BinaryOp::Ge => "w_ge"@,
        BinaryOp::Eq => "w_eq"@,
        BinaryOp::Ne => "w_ne"@,
        BinaryOp::And => "w_and"@,
        BinaryOp::Or => "w_or"@,
    }
}

/// A binary operation. `&&` and `||` become C's short-circuit operators, so
/// the right operand is skipped exactly when the interpreter skips it.
pub open spec fn c_binary(op: BinaryOp, l: Seq<char>, r: Seq<char>) -> Seq<char> {
    match op {
        BinaryOp::And => "w_bool(w_as_bool("@ + l + ") && w_as_bool("@ + r + "))"@,
        BinaryOp::Or => "w_bool(w_as_bool("@ + l + ") || w_as_bool("@ + r + "))"@,
        _ => binary_helper(op) + "("@ + l + ", "@ + r + ")"@,
    }
}

/// The runtime helper of a unary operator.
pub open spec fn unary_helper(op: UnaryOp) -> Seq<char> {
    match op {
        UnaryOp::Neg => "w_neg"@,
        UnaryOp::Not => "w_not"@,
    }
}

/// A unary operation: a call of its runtime helper.
pub open spec fn c_unary(op: UnaryOp, t: Seq<char>) -> Seq<char> {
    unary_helper(op) + "("@ + t + ")"@
}

/// The authority `grant` narrows to: its type argument, else `Root`.
pub open spec fn authority(tas: Seq<TypeExpr>) -> Seq<char> {
    if tas.len() > 0 {
        tas[0].name@
    } else {
        "Root"@
    }
}

/// The parameter list of a function pointer taking `k` values.
pub open spec fn param_types(k: nat) -> Seq<char>
    decreases k,
{
    if k == 0 {
        "void"@
    } else if k == 1 {
        "WValue"@
    } else {
        param_types((k - 1) as nat) + ", WValue"@
    }
}

/// A call of `name` on arguments already translated to `ts`, resolved as
/// the interpreter resolves it: `grant`, a constructor, a local holding a
/// function value, a function of the module, then the built-ins.
pub open spec fn c_call(
    name: Seq<char>,
    tas: Seq<TypeExpr>,
    ts: Seq<Seq<char>>,
    span: Span,
    cx: Cx,
    scope: Seq<Seq<char>>,
) -> Result<Seq<char>, CgErr> {
    let args = sep_join(ts, ", "@);
    if name == "grant"@ {
        let cap = "w_cap("@ + quoted(authority(tas)) + ")"@;
        Ok(if ts.len() == 0 { cap } else { "("@ + args + ", "@ + cap + ")"@ })
    } else if ctor_lookup(cx.1, name) is Some {
        Ok(if ts.len() == 0 {
            nullary(name)
        } else {
            "w_variant("@ + quoted(name) + ", "@ + decimal(ts.len()) + ", (WValue[]){"@ + args + "})"@
        })
    } else if scope.contains(name) {
        Ok("((WValue(*)("@ + param_types(ts.len()) + "))("@ + local_name(name) + ".f))("@ + args + ")"@)
    } else if is_fn(cx, name) {
        Ok(fn_cname(name) + "("@ + args + ")"@)
    } else if name == "print"@ {
        if ts.len() == 1 {
            Ok("w_print("@ + args + ")"@)
        } else {
            Err((span, "`print` expects 1 argument"@))
        }
    } else if name == "sanitize"@ {
        if ts.len() == 2 {
            Ok("w_sanitize("@ + args + ")"@)
        } else {
            Err((span, "`sanitize` expects 2 arguments"@))
        }
    } else if crate::ops::is_text_builtin(name) {
        if ts.len() == crate::ops::text_builtin_arity(name) {
            Ok("w_"@ + name + "("@ + args + ")"@)
        } else {
            Err((span, "`"@ + name + "` expects "@ + decimal(crate::ops::text_builtin_arity(name)) + " argument(s)"@))
        }
    } else {
        Err((span, "unknown function `"@ + name + "`"@))
    }
}

/// The C access path of payload field `k` below `acc`.
pub open spec fn field_acc(acc: Seq<char>, k: nat) -> Seq<char> {
    acc + ".fields["@ + decimal(k) + "]"@
}

/// A test that the value at `acc` is variant `n` with `k` fields.
pub open spec fn is_test(acc: Seq<char>, n: Seq<char>, k: nat) -> Seq<char> {
    "w_is("@ + acc + ", "@ + quoted(n) + ", "@ + decimal(k) + ")"@
}

/// The variant tests a pattern makes of the value at `acc`, outermost
/// first. A bare name tests only when it names a payload-free constructor.
pub open spec fn pat_tests(p: Pattern, cx: Cx, acc: Seq<char>) -> Seq<Seq<char>>
    decreases p, 1int,
{
    match p {
        Pattern::Wildcard { .. } => Seq::empty(),
        Pattern::Ident { name, .. } => if ctor_lookup(cx.1, name@) == Some(0nat) {
            seq![is_test(acc, name@, 0)]
        } else {
            Seq::empty()
        },
        Pattern::Variant { name, args, .. } => seq![is_test(acc, name@, args@.len())] + pats_tests(args@, cx, acc),
    }
}

/// The tests of sub-patterns, field by field.
pub open spec fn pats_tests(ps: Seq<Pattern>, cx: Cx, acc: Seq<char>) -> Seq<Seq<char>>
    decreases ps, 0int,
{
    if ps.len() == 0 {
        Seq::empty()
    } else {
        pats_tests(ps.subrange(0, ps.len() - 1), cx, acc) + pat_tests(
            ps[ps.len() - 1],
            cx,
            field_acc(acc, (ps.len() - 1) as nat),
        )
    }
}

/// The names a pattern binds, each with the access path of its value.
pub open spec fn pat_binds(p: Pattern, cx: Cx, acc: Seq<char>) -> Seq<(Seq<char>, Seq<char>)>
    decreases p, 1int,
{
    match p {
        Pattern::Wildcard { .. } => Seq::empty(),
        Pattern::Ident { name, .. } => if ctor_lookup(cx.1, name@) == Some(0nat) {
            Seq::empty()
        } else {
            seq![(name@, acc)]
        },
        Pattern::Variant { args, .. } => pats_binds(args@, cx, acc),
    }
}

/// The bindings of sub-patterns, field by field.
pub open spec fn pats_binds(ps: Seq<Pattern>, cx: Cx, acc: Seq<char>) -> Seq<(Seq<char>, Seq<char>)>
    decreases ps, 0int,
{
    if ps.len() == 0 {
        Seq::empty()
    } else {
        pats_binds(ps.subrange(0, ps.len() - 1), cx, acc) + pat_binds(
            ps[ps.len() - 1],
            cx,
            field_acc(acc, (ps.len() - 1) as nat),
        )
    }
}

/// The names of a list of bindings.
pub open spec fn bound_names(bs: Seq<(Seq<char>, Seq<char>)>) -> Seq<Seq<char>> {
    bs.map_values(|b: (Seq<char>, Seq<char>)| b.0)
}

/// The condition of an arm: its tests joined by `&&`, or `1` when none.
pub open spec fn cond_text(tests: Seq<Seq<char>>) -> Seq<char> {
    if tests.len() == 0 {
        "1"@
    } else {
        sep_join(tests, " && "@)
    }
}

/// Declarations of the bound names; a name bound twice keeps its first
/// value, as the interpreter's first binding stands.
pub open spec fn binds_text(bs: Seq<(Seq<char>, Seq<char>)>) -> Seq<char>
    decreases bs.len(),
{
    if bs.len() == 0 {
        Seq::empty()
    } else {
        binds_text(bs.drop_last()) + if bound_names(bs.drop_last()).contains(bs.last().0) {
            Seq::<char>::empty()
        } else {
            "WValue "@ + local_name(bs.last().0) + " = "@ + bs.last().1 + "; "@
        }
    }
}

/// One arm: its condition, its bindings, and the assignment of its value.
pub open spec fn arm_text(cond: Seq<char>, binds: Seq<char>, body: Seq<char>) -> Seq<char> {
    "if ("@ + cond + ") { "@ + binds + "w_r = "@ + body + "; } else "@
}

/// A `match`: the scrutinee in `w_m`, the chosen arm's value in `w_r`, and
/// a trap when no arm matches. Each `match` is a block of its own, so a
/// nested one shadows `w_m` and `w_r` without disturbing the outer.
pub open spec fn match_text(scrutinee: Seq<char>, arms: Seq<char>) -> Seq<char> {
    "({ WValue w_m = "@ + scrutinee + "; WValue w_r = w_unit(); "@ + arms + "{ w_no_match(w_m); } w_r; })"@
}

/// An expression as a C expression, given the locals in scope.
pub open spec fn c_expr(e: Expr, cx: Cx, scope: Seq<Seq<char>>) -> Result<Seq<char>, CgErr>
    decreases e, 2int,
{
    match e {
        Expr::Literal(lit) => Ok(c_literal(lit.kind)),
        Expr::Identifier { name, span } => c_name(name@, span, cx, scope),
        Expr::Unary { op, operand, .. } => match c_expr(*operand, cx, scope) {
            Ok(t) => Ok(c_unary(op, t)),
            Err(x) => Err(x),
        },
        Expr::Binary { op, left, right, .. } => match c_expr(*left, cx, scope) {
            Ok(l) => match c_expr(*right, cx, scope) {
                Ok(r) => Ok(c_binary(op, l, r)),
                Err(x) => Err(x),
            },
            Err(x) => Err(x),
        },
        Expr::Call { callee, type_args, args, span } => match *callee {
            Expr::Identifier { name, .. } => match c_args(args@, cx, scope) {
                Ok(ts) => c_call(name@, type_args@, ts, span, cx, scope),
                Err(x) => Err(x),
            },
            _ => Err((span, "only named functions can be called in the C back end"@)),
        },
        Expr::Match { scrutinee, arms, .. } => match c_expr(*scrutinee, cx, scope) {
            Ok(t) => match c_arms(arms@, cx, scope) {
                Ok(a) => Ok(match_text(t, a)),
                Err(x) => Err(x),
            },
            Err(x) => Err(x),
        },
        Expr::Member { span, .. } => Err((span, "member access is not supported by the C back end yet"@)),
    }
}

/// A list of arguments, each translated, left to right.
pub open spec fn c_args(xs: Seq<Expr>, cx: Cx, scope: Seq<Seq<char>>) -> Result<Seq<Seq<char>>, CgErr>
    decreases xs, 1int,
{
    if xs.len() == 0 {
        Ok(Seq::empty())
    } else {
        match c_args(xs.subrange(0, xs.len() - 1), cx, scope) {
            Ok(ts) => match c_expr(xs[xs.len() - 1], cx, scope) {
                Ok(t) => Ok(ts.push(t)),
                Err(x) => Err(x),
            },
            Err(x) => Err(x),
        }
    }
}

/// The arms of a `match`, tried in order against `w_m`.
pub open spec fn c_arms(xs: Seq<MatchArm>, cx: Cx, scope: Seq<Seq<char>>) -> Result<Seq<char>, CgErr>
    decreases xs, 1int,
{
    if xs.len() == 0 {
        Ok(Seq::empty())
    } else {
        proof {
            assert(decreases_to!(xs[xs.len() - 1] => xs[xs.len() - 1].body));
        }
        let a = xs[xs.len() - 1];
        let bs = pat_binds(a.pattern, cx, "w_m"@);
        match c_arms(xs.subrange(0, xs.len() - 1), cx, scope) {
            Ok(t) => match c_expr(a.body, cx, scope + bound_names(bs)) {
                Ok(b) => Ok(t + arm_text(cond_text(pat_tests(a.pattern, cx, "w_m"@)), binds_text(bs), b)),
                Err(x) => Err(x),
            },
            Err(x) => Err(x),
        }
    }
}

fn cg_error(span: Span, message: String) -> (e: CodegenError)
    ensures
        e.span == span,
        e.message == message,
{
    CodegenError { message, span }
}

fn ctor_arity(cx: &Names, n: &str) -> (r: Option<usize>)
    ensures
        match r {
            Some(k) => ctor_lookup(cx@.1, n@) == Some(k as nat),
            None => ctor_lookup(cx@.1, n@) is None,
        },
{
    let ghost cs = cx@.1;
    let mut i = cx.ctors.len();
    assert(cs.subrange(0, i as int) =~= cs);
    while i > 0
        invariant
            i <= cs.len(),
            cs == cx@.1,
            cs.len() == cx.ctors@.len(),
            ctor_lookup(cs, n@) == ctor_lookup(cs.subrange(0, i as int), n@),
        decreases i,
    {
        assert(cs.subrange(0, i as int).drop_last() =~= cs.subrange(0, i - 1));
        assert(cs[i - 1] == (cx.ctors@[i - 1].name@, cx.ctors@[i - 1].arity as nat));
        if string_is(&cx.ctors[i - 1].name, n) {
            return Some(cx.ctors[i - 1].arity);
        }
        i = i - 1;
    }
    None
}

fn copy_names(v: &Vec<String>) -> (r: Vec<String>)
    ensures
        names_view(r@) == names_view(v@),
{
    let mut out: Vec<String> = Vec::new();
    let n = v.len();
    let mut i: usize = 0;
    while i < n
        invariant
            n == v@.len(),
            i <= n,
            out@ == v@.subrange(0, i as int),
        decreases n - i,
    {
        out.push(copy_string(&v[i]));
        assert(out@ =~= v@.subrange(0, i + 1));
        i = i + 1;
    }
    assert(v@.subrange(0, n as int) =~= v@);
    out
}

fn emit_name(name: &String, span: Span, cx: &Names, scope: &Vec<String>) -> (r: Result<String, CodegenError>)
    ensures
        emitted(r, c_name(name@, span, cx@, names_view(scope@))),
{
    let mut out = String::new();
    if crate::text::contains_str(scope, name.as_str()) {
        push_str(&mut out, "v_");
        push_c_ident(&mut out, name.as_str());
        assert(out@ =~= local_name(name@));
        return Ok(out);
    }
    if ctor_arity(cx, name.as_str()) == Some(0usize) {
        push_str(&mut out, "w_variant(");
        push_quoted(&mut out, name.as_str());
        push_str(&mut out, ", 0, NULL)");
        assert(out@ =~= nullary(name@));
        return Ok(out);
    }
    if crate::text::contains_str(&cx.fns, name.as_str()) {
        push_str(&mut out, "w_fn((WFn)");
        push_str(&mut out, "wf_");
        push_c_ident(&mut out, name.as_str());
        push_str(&mut out, ", ");
        push_quoted(&mut out, name.as_str());
        push_str(&mut out, ")");
        assert(out@ =~= "w_fn((WFn)"@ + fn_cname(name@) + ", "@ + quoted(name@) + ")"@);
        return Ok(out);
    }
    push_str(&mut out, "unbound variable `");
    push_str(&mut out, name.as_str());
    push_str(&mut out, "`");
    assert(out@ =~= "unbound variable `"@ + name@ + "`"@);
    Err(cg_error(span, out))
}

fn push_literal(out: &mut String, k: &LiteralKind)
    ensures
        final(out)@ == old(out)@ + c_literal(*k),
{
    match k {
        LiteralKind::Int(n) => {
            push_str(out, "w_int(");
            push_i64(out, *n);
            push_str(out, ")");
        },
        LiteralKind::Bool(b) => {
            if *b {
                push_str(out, "w_bool(1)");
            } else {
                push_str(out, "w_bool(0)");
            }
        },
        LiteralKind::Text(t) => {
            push_str(out, "w_text(");
            push_quoted(out, t.as_str());
            push_str(out, ")");
        },
    }
    assert(final(out)@ =~= old(out)@ + c_literal(*k));
}

fn binary_text(op: BinaryOp, l: &String, r: &String) -> (t: String)
    ensures
        t@ == c_binary(op, l@, r@),
{
    let mut out = String::new();
    match op {
        BinaryOp::And | BinaryOp::Or => {
            push_str(&mut out, "w_bool(w_as_bool(");
            push_str(&mut out, l.as_str());
            match op {
                BinaryOp::And => push_str(&mut out, ") && w_as_bool("),
                _ => push_str(&mut out, ") || w_as_bool("),
            }
            push_str(&mut out, r.as_str());
            push_str(&mut out, "))");
        },
        _ => {
            let h = match op {
                BinaryOp::Add => "w_add",
                BinaryOp::Sub => "w_sub",
                BinaryOp::Mul => "w_mul",
                BinaryOp::Div => "w_div",
                BinaryOp::Rem => "w_rem",
                BinaryOp::Lt => "w_lt",
                BinaryOp::Le => "w_le",
                BinaryOp::Gt => "w_gt",
                BinaryOp::Ge => "w_ge",
                BinaryOp::Eq => "w_eq",
                BinaryOp::Ne => "w_ne",
                BinaryOp::And => "w_and",
                BinaryOp::Or => "w_or",
            };
            assert(h@ == binary_helper(op));
            push_str(&mut out, h);
            push_str(&mut out, "(");
            push_str(&mut out, l.as_str());
            push_str(&mut out, ", ");
            push_str(&mut out, r.as_str());
            push_str(&mut out, ")");
        },
    }
    assert(out@ =~= c_binary(op, l@, r@));
    out
}

fn push_param_types(out: &mut String, k: usize)
    ensures
        final(out)@ == old(out)@ + param_types(k as nat),
{
    if k == 0 {
        push_str(out, "void");
        return;
    }
    push_str(out, "WValue");
    let mut i: usize = 1;
    while i < k
        invariant
            1 <= i <= k,
            out@ == old(out)@ + param_types(i as nat),
        decreases k - i,
    {
        push_str(out, ", WValue");
        assert(param_types((i + 1) as nat) == param_types(i as nat) + ", WValue"@);
        i = i + 1;
    }
}

fn emit_call(
    name: &String,
    tas: &Vec<TypeExpr>,
    ts: &Vec<String>,
    span: Span,
    cx: &Names,
    scope: &Vec<String>,
) -> (r: Result<String, CodegenError>)
    ensures
        emitted(r, c_call(name@, tas@, names_view(ts@), span, cx@, names_view(scope@))),
{
    let ghost args = sep_join(names_view(ts@), ", "@);
    let mut out = String::new();
    if string_is(name, "grant") {
        let mut cap = String::new();
        push_str(&mut cap, "w_cap(");
        if tas.len() > 0 {
            push_quoted(&mut cap, tas[0].name.as_str());
        } else {
            push_quoted(&mut cap, "Root");
        }
        push_str(&mut cap, ")");
        if ts.len() == 0 {
            return Ok(cap);
        }
        push_str(&mut out, "(");
        push_joined(&mut out, ts, ", ");
        push_str(&mut out, ", ");
        push_str(&mut out, cap.as_str());
        push_str(&mut out, ")");
        assert(out@ =~= "("@ + args + ", "@ + cap@ + ")"@);
        return Ok(out);
    }
    if ctor_arity(cx, name.as_str()).is_some() {
        push_str(&mut out, "w_variant(");
        push_quoted(&mut out, name.as_str());
        if ts.len() == 0 {
            push_str(&mut out, ", 0, NULL)");
            assert(out@ =~= nullary(name@));
            return Ok(out);
        }
        push_str(&mut out, ", ");
        push_usize(&mut out, ts.len());
        push_str(&mut out, ", (WValue[]){");
        push_joined(&mut out, ts, ", ");
        push_str(&mut out, "})");
        assert(out@ =~= "w_variant("@ + quoted(name@) + ", "@ + decimal(ts@.len()) + ", (WValue[]){"@ + args + "})"@);
        return Ok(out);
    }
    if crate::text::contains_str(scope, name.as_str()) {
        push_str(&mut out, "((WValue(*)(");
        push_param_types(&mut out, ts.len());
        push_str(&mut out, "))(");
        push_str(&mut out, "v_");
        push_c_ident(&mut out, name.as_str());
        push_str(&mut out, ".f))(");
        push_joined(&mut out, ts, ", ");
        push_str(&mut out, ")");
        assert(out@ =~= "((WValue(*)("@ + param_types(ts@.len()) + "))("@ + local_name(name@) + ".f))("@ + args + ")"@);
        return Ok(out);
    }
    if crate::text::contains_str(&cx.fns, name.as_str()) {
        push_str(&mut out, "wf_");
        push_c_ident(&mut out, name.as_str());
        push_str(&mut out, "(");
        push_joined(&mut out, ts, ", ");
        push_str(&mut out, ")");
        assert(out@ =~= fn_cname(name@) + "("@ + args + ")"@);
        return Ok(out);
    }
    if string_is(name, "print") {
        if ts.len() == 1 {
            push_str(&mut out, "w_print(");
            push_joined(&mut out, ts, ", ");
            push_str(&mut out, ")");
            assert(out@ =~= "w_print("@ + args + ")"@);
            return Ok(out);
        }
        return Err(cg_error(span, crate::text::owned("`print` expects 1 argument")));
    }
    if string_is(name, "sanitize") {
        if ts.len() == 2 {
            push_str(&mut out, "w_sanitize(");
            push_joined(&mut out, ts, ", ");
            push_str(&mut out, ")");
            assert(out@ =~= "w_sanitize("@ + args + ")"@);
            return Ok(out);
        }
        return Err(cg_error(span, crate::text::owned("`sanitize` expects 2 arguments")));
    }
    match crate::ops::text_builtin_arity_of(name.as_str()) {
        Some(k) => {
            if ts.len() == k {
                push_str(&mut out, "w_");
                push_str(&mut out, name.as_str());
                push_str(&mut out, "(");
                push_joined(&mut out, ts, ", ");
                push_str(&mut out, ")");
                assert(out@ =~= "w_"@ + name@ + "("@ + args + ")"@);
                return Ok(out);
            }
            push_str(&mut out, "`");
            push_str(&mut out, name.as_str());
            push_str(&mut out, "` expects ");
            push_usize(&mut out, k);
            push_str(&mut out, " argument(s)");
            assert(out@ =~= "`"@ + name@ + "` expects "@ + decimal(k as nat) + " argument(s)"@);
            Err(cg_error(span, out))
        },
        None => {
            push_str(&mut out, "unknown function `");
            push_str(&mut out, name.as_str());
            push_str(&mut out, "`");
            assert(out@ =~= "unknown function `"@ + name@ + "`"@);
            Err(cg_error(span, out))
        },
    }
}

/// The views of a list of (name, access path) bindings.
pub open spec fn pairs_view(v: Seq<(String, String)>) -> Seq<(Seq<char>, Seq<char>)> {
    v.map_values(|b: (String, String)| (b.0@, b.1@))
}

fn field_acc_text(acc: &String, k: usize) -> (r: String)
    ensures
        r@ == field_acc(acc@, k as nat),
{
    let mut out = String::new();
    push_str(&mut out, acc.as_str());
    push_str(&mut out, ".fields[");
    push_usize(&mut out, k);
    push_str(&mut out, "]");
    assert(out@ =~= field_acc(acc@, k as nat));
    out
}

fn is_test_text(acc: &String, n: &String, k: usize) -> (r: String)
    ensures
        r@ == is_test(acc@, n@, k as nat),
{
    let mut out = String::new();
    push_str(&mut out, "w_is(");
    push_str(&mut out, acc.as_str());
    push_str(&mut out, ", ");
    push_quoted(&mut out, n.as_str());
    push_str(&mut out, ", ");
    push_usize(&mut out, k);
    push_str(&mut out, ")");
    assert(out@ =~= is_test(acc@, n@, k as nat));
    out
}

fn collect_tests(p: &Pattern, cx: &Names, acc: &String, out: &mut Vec<String>)
    ensures
        names_view(final(out)@) == names_view(old(out)@) + pat_tests(*p, cx@, acc@),
    decreases p, 1int,
{
    let ghost before = names_view(out@);
    match p {
        Pattern::Wildcard { .. } => {},
        Pattern::Ident { name, .. } => {
            if ctor_arity(cx, name.as_str()) == Some(0usize) {
                out.push(is_test_text(acc, name, 0));
            }
        },
        Pattern::Variant { name, args, .. } => {
            out.push(is_test_text(acc, name, args.len()));
            assert(names_view(out@) =~= before + seq![is_test(acc@, name@, args@.len())]);
            collect_tests_all(args, cx, acc, out);
        },
    }
    assert(names_view(out@) =~= before + pat_tests(*p, cx@, acc@));
}

fn collect_tests_all(ps: &Vec<Pattern>, cx: &Names, acc: &String, out: &mut Vec<String>)
    ensures
        names_view(final(out)@) == names_view(old(out)@) + pats_tests(ps@, cx@, acc@),
    decreases ps, 0int,
{
    let ghost before = names_view(out@);
    let n = ps.len();
    let mut i: usize = 0;
    assert(before + pats_tests(ps@.subrange(0, 0), cx@, acc@) =~= before);
    while i < n
        invariant
            n == ps@.len(),
            i <= n,
            names_view(out@) == before + pats_tests(ps@.subrange(0, i as int), cx@, acc@),
        decreases n - i,
    {
        let fa = field_acc_text(acc, i);
        let ghost mid = names_view(out@);
        collect_tests(&ps[i], cx, &fa, out);
        proof {
            let q = ps@.subrange(0, i + 1);
            assert(q.subrange(0, q.len() - 1) =~= ps@.subrange(0, i as int));
            assert(q[q.len() - 1] == ps@[i as int]);
            assert(names_view(out@) =~= before + pats_tests(q, cx@, acc@));
        }
        i = i + 1;
    }
    assert(ps@.subrange(0, n as int) =~= ps@);
}

fn collect_binds(p: &Pattern, cx: &Names, acc: &String, out: &mut Vec<(String, String)>)
    ensures
        pairs_view(final(out)@) == pairs_view(old(out)@) + pat_binds(*p, cx@, acc@),
    decreases p, 1int,
{
    let ghost before = pairs_view(out@);
    match p {
        Pattern::Wildcard { .. } => {},
        Pattern::Ident { name, .. } => {
            if ctor_arity(cx, name.as_str()) != Some(0usize) {
                out.push((copy_string(name), copy_string(acc)));
            }
        },
        Pattern::Variant { args, .. } => {
            collect_binds_all(args, cx, acc, out);
        },
    }
    assert(pairs_view(out@) =~= before + pat_binds(*p, cx@, acc@));
}

fn collect_binds_all(ps: &Vec<Pattern>, cx: &Names, acc: &String, out: &mut Vec<(String, String)>)
    ensures
        pairs_view(final(out)@) == pairs_view(old(out)@) + pats_binds(ps@, cx@, acc@),
    decreases ps, 0int,
{
    let ghost before = pairs_view(out@);
    let n = ps.len();
    let mut i: usize = 0;
    assert(before + pats_binds(ps@.subrange(0, 0), cx@, acc@) =~= before);
    while i < n
        invariant
            n == ps@.len(),
            i <= n,
            pairs_view(out@) == before + pats_binds(ps@.subrange(0, i as int), cx@, acc@),
        decreases n - i,
    {
        let fa = field_acc_text(acc, i);
        collect_binds(&ps[i], cx, &fa, out);
        proof {
            let q = ps@.subrange(0, i + 1);
            assert(q.subrange(0, q.len() - 1) =~= ps@.subrange(0, i as int));
            assert(q[q.len() - 1] == ps@[i as int]);
            assert(pairs_view(out@) =~= before + pats_binds(q, cx@, acc@));
        }
        i = i + 1;
    }
    assert(ps@.subrange(0, n as int) =~= ps@);
}

fn push_binds(out: &mut String, bs: &Vec<(String, String)>)
    ensures
        final(out)@ == old(out)@ + binds_text(pairs_view(bs@)),
{
    let ghost pv = pairs_view(bs@);
    let n = bs.len();
    let mut i: usize = 0;
    assert(pv.subrange(0, 0) =~= Seq::<(Seq<char>, Seq<char>)>::empty());
    while i < n
        invariant
            n == bs@.len(),
            pv == pairs_view(bs@),
            i <= n,
            out@ == old(out)@ + binds_text(pv.subrange(0, i as int)),
        decreases n - i,
    {
        let mut seen = false;
        let mut j: usize = 0;
        while j < i
            invariant
                n == bs@.len(),
                pv == pairs_view(bs@),
                j <= i < n,
                seen == bound_names(pv.subrange(0, j as int)).contains(pv[i as int].0),
            decreases i - j,
        {
            proof {
                assert(bound_names(pv.subrange(0, j + 1)) =~= bound_names(pv.subrange(0, j as int)).push(pv[j as int].0));
            }
            let same = string_is(&bs[j].0, bs[i].0.as_str());
            proof {
                let a = bound_names(pv.subrange(0, j as int));
                let x = pv[j as int].0;
                let y = pv[i as int].0;
                assert(x == bs@[j as int].0@);
                assert(y == bs@[i as int].0@);
                if a.contains(y) {
                    let w = choose|w: int| 0 <= w < a.len() && a[w] == y;
                    assert(a.push(x)[w] == y);
                }
                if same {
                    assert(a.push(x)[j as int] == y);
                } else {
                    if a.push(x).contains(y) {
                        let w = choose|w: int| 0 <= w < a.push(x).len() && a.push(x)[w] == y;
                        assert(w < a.len());
                        assert(a[w] == y);
                    }
                }
            }
            if same {
                seen = true;
            }
            j = j + 1;
        }
        if !seen {
            push_str(out, "WValue ");
            push_str(out, "v_");
            push_c_ident(out, bs[i].0.as_str());
            push_str(out, " = ");
            push_str(out, bs[i].1.as_str());
            push_str(out, "; ");
        }
        proof {
            let q = pv.subrange(0, i + 1);
            assert(q.drop_last() =~= pv.subrange(0, i as int));
            assert(q.last() == pv[i as int]);
            assert(out@ =~= old(out)@ + binds_text(q));
        }
        i = i + 1;
    }
    assert(pv.subrange(0, n as int) =~= pv);
}

proof fn lemma_args_err(xs: Seq<Expr>, cx: Cx, scope: Seq<Seq<char>>, k: int)
    requires
        0 <= k <= xs.len(),
        c_args(xs.subrange(0, k), cx, scope) is Err,
    ensures
        c_args(xs, cx, scope) == c_args(xs.subrange(0, k), cx, scope),
    decreases xs.len() - k,
{
    if k < xs.len() {
        let q = xs.subrange(0, k + 1);
        assert(q.subrange(0, q.len() - 1) =~= xs.subrange(0, k));
        lemma_args_err(xs, cx, scope, k + 1);
    } else {
        assert(xs.subrange(0, k) =~= xs);
    }
}

proof fn lemma_arms_err(xs: Seq<MatchArm>, cx: Cx, scope: Seq<Seq<char>>, k: int)
    requires
        0 <= k <= xs.len(),
        c_arms(xs.subrange(0, k), cx, scope) is Err,
    ensures
        c_arms(xs, cx, scope) == c_arms(xs.subrange(0, k), cx, scope),
    decreases xs.len() - k,
{
    if k < xs.len() {
        let q = xs.subrange(0, k + 1);
        assert(q.subrange(0, q.len() - 1) =~= xs.subrange(0, k));
        lemma_arms_err(xs, cx, scope, k + 1);
    } else {
        assert(xs.subrange(0, k) =~= xs);
    }
}

fn emit_expr(e: &Expr, cx: &Names, scope: &Vec<String>) -> (r: Result<String, CodegenError>)
    ensures
        emitted(r, c_expr(*e, cx@, names_view(scope@))),
    decreases crate::ast::expr_size(*e), 2int,
{
    match e {
        Expr::Literal(lit) => {
            let mut out = String::new();
            push_literal(&mut out, &lit.kind);
            assert(out@ =~= c_literal(lit.kind));
            Ok(out)
        },
        Expr::Identifier { name, span } => emit_name(name, *span, cx, scope),
        Expr::Unary { op, operand, .. } => {
            match emit_expr(operand, cx, scope) {
                Ok(t) => {
                    let mut out = String::new();
                    match op {
                        UnaryOp::Neg => push_str(&mut out, "w_neg"),
                        UnaryOp::Not => push_str(&mut out, "w_not"),
                    }
                    push_str(&mut out, "(");
                    push_str(&mut out, t.as_str());
                    push_str(&mut out, ")");
                    assert(out@ =~= c_unary(*op, t@));
                    Ok(out)
                },
                Err(x) => Err(x),
            }
        },
        Expr::Binary { op, left, right, .. } => {
            let l = match emit_expr(left, cx, scope) {
                Ok(l) => l,
                Err(x) => return Err(x),
            };
            let r = match emit_expr(right, cx, scope) {
                Ok(r) => r,
                Err(x) => return Err(x),
            };
            Ok(binary_text(*op, &l, &r))
        },
        Expr::Call { callee, type_args, args, span } => {
            let name = match &**callee {
                Expr::Identifier { name, .. } => name,
                _ => {
                    return Err(cg_error(*span, crate::text::owned("only named functions can be called in the C back end")));
                },
            };
            match emit_args(args, cx, scope) {
                Ok(ts) => emit_call(name, type_args, &ts, *span, cx, scope),
                Err(x) => Err(x),
            }
        },
        Expr::Match { scrutinee, arms, .. } => {
            let t = match emit_expr(scrutinee, cx, scope) {
                Ok(t) => t,
                Err(x) => return Err(x),
            };
            let a = match emit_arms(arms, cx, scope) {
                Ok(a) => a,
                Err(x) => return Err(x),
            };
            let mut out = String::new();
            push_str(&mut out, "({ WValue w_m = ");
            push_str(&mut out, t.as_str());
            push_str(&mut out, "; WValue w_r = w_unit(); ");
            push_str(&mut out, a.as_str());
            push_str(&mut out, "{ w_no_match(w_m); } w_r; })");
            assert(out@ =~= match_text(t@, a@));
            Ok(out)
        },
        Expr::Member { span, .. } => {
            Err(cg_error(*span, crate::text::owned("member access is not supported by the C back end yet")))
        },
    }
}

fn emit_args(args: &Vec<Expr>, cx: &Names, scope: &Vec<String>) -> (r: Result<Vec<String>, CodegenError>)
    ensures
        match c_args(args@, cx@, names_view(scope@)) {
            Ok(ts) => r is Ok && names_view(r->Ok_0@) == ts,
            Err(x) => r is Err && r->Err_0.span == x.0 && r->Err_0.message@ == x.1,
        },
    decreases crate::ast::exprs_size(args@), 1int,
{
    let ghost sc = names_view(scope@);
    let mut out: Vec<String> = Vec::new();
    let n = args.len();
    let mut i: usize = 0;
    assert(args@.subrange(0, 0) =~= Seq::<Expr>::empty());
    assert(names_view(out@) =~= Seq::<Seq<char>>::empty());
    while i < n
        invariant
            n == args@.len(),
            i <= n,
            sc == names_view(scope@),
            c_args(args@.subrange(0, i as int), cx@, sc) == Ok::<Seq<Seq<char>>, CgErr>(names_view(out@)),
        decreases n - i,
    {
        proof {
            crate::ast::lemma_exprs_size(args@, i as int);
        }
        let r = emit_expr(&args[i], cx, scope);
        let ghost q = args@.subrange(0, i + 1);
        proof {
            assert(q.subrange(0, q.len() - 1) =~= args@.subrange(0, i as int));
            assert(q[q.len() - 1] == args@[i as int]);
        }
        match r {
            Ok(t) => {
                let ghost before = names_view(out@);
                let ghost tt = t@;
                out.push(t);
                assert(names_view(out@) =~= before.push(tt));
            },
            Err(x) => {
                proof {
                    lemma_args_err(args@, cx@, sc, i + 1);
                }
                return Err(x);
            },
        }
        i = i + 1;
    }
    assert(args@.subrange(0, n as int) =~= args@);
    Ok(out)
}

/// The scope of an arm's body: the enclosing scope and the names its
/// pattern binds.
fn scope_with_binds(scope: &Vec<String>, bs: &Vec<(String, String)>) -> (r: Vec<String>)
    ensures
        names_view(r@) == names_view(scope@) + bound_names(pairs_view(bs@)),
{
    let ghost sc = names_view(scope@);
    let mut inner = copy_names(scope);
    let m = bs.len();
    let mut j: usize = 0;
    while j < m
        invariant
            m == bs@.len(),
            j <= m,
            names_view(inner@) == sc + bound_names(pairs_view(bs@).subrange(0, j as int)),
        decreases m - j,
    {
        let ghost before = names_view(inner@);
        inner.push(copy_string(&bs[j].0));
        assert(bound_names(pairs_view(bs@).subrange(0, j + 1)) =~= bound_names(pairs_view(bs@).subrange(0, j as int)).push(bs@[j as int].0@));
        assert(names_view(inner@) =~= before.push(bs@[j as int].0@));
        j = j + 1;
    }
    assert(pairs_view(bs@).subrange(0, m as int) =~= pairs_view(bs@));
    inner
}

/// Append one arm: its test, its bindings and its body.
fn push_arm(out: &mut String, tests: &Vec<String>, bs: &Vec<(String, String)>, body: &String)
    ensures
        final(out)@ == old(out)@ + arm_text(cond_text(names_view(tests@)), binds_text(pairs_view(bs@)), body@),
{
    let ghost before = out@;
    push_str(out, "if (");
    if tests.len() == 0 {
        push_str(out, "1");
    } else {
        push_joined(out, tests, " && ");
    }
    push_str(out, ") { ");
    push_binds(out, bs);
    push_str(out, "w_r = ");
    push_str(out, body.as_str());
    push_str(out, "; } else ");
    assert(out@ =~= before + arm_text(cond_text(names_view(tests@)), binds_text(pairs_view(bs@)), body@));
}

fn emit_arms(arms: &Vec<MatchArm>, cx: &Names, scope: &Vec<String>) -> (r: Result<String, CodegenError>)
    ensures
        emitted(r, c_arms(arms@, cx@, names_view(scope@))),
    decreases crate::ast::arms_size(arms@), 1int,
{
    let ghost sc = names_view(scope@);
    let mut out = String::new();
    let n = arms.len();
    let mut i: usize = 0;
    assert(arms@.subrange(0, 0) =~= Seq::<MatchArm>::empty());
    while i < n
        invariant
            n == arms@.len(),
            i <= n,
            sc == names_view(scope@),
            c_arms(arms@.subrange(0, i as int), cx@, sc) == Ok::<Seq<char>, CgErr>(out@),
        decreases n - i,
    {
        proof {
            crate::ast::lemma_arms_size(arms@, i as int);
        }
        let a = &arms[i];
        let acc = crate::text::owned("w_m");
        let mut tests: Vec<String> = Vec::new();
        collect_tests(&a.pattern, cx, &acc, &mut tests);
        assert(names_view(tests@) =~= pat_tests(a.pattern, cx@, "w_m"@));
        let mut bs: Vec<(String, String)> = Vec::new();
        collect_binds(&a.pattern, cx, &acc, &mut bs);
        assert(pairs_view(bs@) =~= pat_binds(a.pattern, cx@, "w_m"@));
        let inner = scope_with_binds(scope, &bs);
        let ghost q = arms@.subrange(0, i + 1);
        proof {
            assert(q.subrange(0, q.len() - 1) =~= arms@.subrange(0, i as int));
            assert(q[q.len() - 1] == arms@[i as int]);
        }
        let body = match emit_expr(&a.body, cx, &inner) {
            Ok(b) => b,
            Err(x) => {
                proof {
                    lemma_arms_err(arms@, cx@, sc, i + 1);
                }
                return Err(x);
            },
        };
        push_arm(&mut out, &tests, &bs, &body);
        i = i + 1;
    }
    assert(arms@.subrange(0, n as int) =~= arms@);
    Ok(out)
}

/// The trap message of a failed check: the interpreter's own wording.
pub open spec fn blame_message(b: Blame) -> Seq<char> {
    match b {
        Blame::Caller => "precondition violated (blame: caller)"@,
        Blame::Implementation => "postcondition violated (blame: implementation)"@,
    }
}

/// A `let`: an assignment when the name was declared earlier in the same
/// block (`mark` is where the block's names start); a declaration through a
/// temporary when it shadows an outer binding, so the value still reads the
/// outer one; a plain declaration otherwise.
pub open spec fn let_text(name: Seq<char>, t: Seq<char>, scope: Seq<Seq<char>>, mark: int, ind: Seq<char>) -> Seq<char> {
    if scope.subrange(mark, scope.len() as int).contains(name) {
        ind + local_name(name) + " = "@ + t + ";\n"@
    } else if scope.contains(name) {
        ind + "WValue s_"@ + c_ident(name) + " = "@ + t + ";\n"@ + ind + "WValue "@ + local_name(name) + " = s_"@
            + c_ident(name) + ";\n"@
    } else {
        ind + "WValue "@ + local_name(name) + " = "@ + t + ";\n"@
    }
}

/// A statement at indentation `ind`, with the text and the locals in scope
/// after it.
pub open spec fn c_stmt(s: Stmt, cx: Cx, scope: Seq<Seq<char>>, mark: int, ind: Seq<char>) -> Result<(Seq<char>, Seq<Seq<char>>), CgErr>
    decreases s, 1int,
{
    match s {
        Stmt::Let { name, value, .. } => match c_expr(value, cx, scope) {
            Ok(t) => Ok((let_text(name@, t, scope, mark, ind), scope.push(name@))),
            Err(x) => Err(x),
        },
        Stmt::Expr(e) => match c_expr(e, cx, scope) {
            Ok(t) => Ok((ind + t + ";\n"@, scope)),
            Err(x) => Err(x),
        },
        Stmt::Return { value, .. } => match value {
            Some(e) => match c_expr(e, cx, scope) {
                Ok(t) => Ok((ind + "return "@ + t + ";\n"@, scope)),
                Err(x) => Err(x),
            },
            None => Ok((ind + "return w_unit();\n"@, scope)),
        },
        Stmt::If { cond, then_block, else_block, .. } => match c_expr(cond, cx, scope) {
            Ok(c) => match c_stmts(then_block.stmts@, cx, scope, scope.len() as int, ind + "    "@) {
                Ok((t, _)) => match else_block {
                    Some(b) => match c_stmts(b.stmts@, cx, scope, scope.len() as int, ind + "    "@) {
                        Ok((u, _)) => Ok((ind + "if (w_as_bool("@ + c + ")) {\n"@ + t + ind + "} else {\n"@ + u + ind + "}\n"@, scope)),
                        Err(x) => Err(x),
                    },
                    None => Ok((ind + "if (w_as_bool("@ + c + ")) {\n"@ + t + ind + "}\n"@, scope)),
                },
                Err(x) => Err(x),
            },
            Err(x) => Err(x),
        },
        Stmt::Check { predicate, blame, .. } => match c_expr(predicate, cx, scope) {
            Ok(p) => Ok((ind + "if (!w_as_bool("@ + p + ")) w_trap("@ + quoted(blame_message(blame)) + ");\n"@, scope)),
            Err(x) => Err(x),
        },
    }
}

/// A statement list, each statement seeing the locals its predecessors bound.
pub open spec fn c_stmts(ss: Seq<Stmt>, cx: Cx, scope: Seq<Seq<char>>, mark: int, ind: Seq<char>) -> Result<(Seq<char>, Seq<Seq<char>>), CgErr>
    decreases ss, 0int,
{
    if ss.len() == 0 {
        Ok((Seq::empty(), scope))
    } else {
        match c_stmts(ss.subrange(0, ss.len() - 1), cx, scope, mark, ind) {
            Ok((t, sc)) => match c_stmt(ss[ss.len() - 1], cx, sc, mark, ind) {
                Ok((u, sc2)) => Ok((t + u, sc2)),
                Err(x) => Err(x),
            },
            Err(x) => Err(x),
        }
    }
}

/// A statement emitter's effect agrees with the specified result.
pub open spec fn stmts_emitted(
    r: Result<(), CodegenError>,
    s: Result<(Seq<char>, Seq<Seq<char>>), CgErr>,
    out0: Seq<char>,
    out1: Seq<char>,
    scope1: Seq<Seq<char>>,
) -> bool {
    match (r, s) {
        (Ok(_), Ok((t, sc))) => out1 == out0 + t && scope1 == sc,
        (Err(e), Err(x)) => e.span == x.0 && e.message@ == x.1,
        _ => false,
    }
}

proof fn lemma_stmts_err(xs: Seq<Stmt>, cx: Cx, scope: Seq<Seq<char>>, mark: int, ind: Seq<char>, k: int)
    requires
        0 <= k <= xs.len(),
        c_stmts(xs.subrange(0, k), cx, scope, mark, ind) is Err,
    ensures
        c_stmts(xs, cx, scope, mark, ind) == c_stmts(xs.subrange(0, k), cx, scope, mark, ind),
    decreases xs.len() - k,
{
    if k < xs.len() {
        let q = xs.subrange(0, k + 1);
        assert(q.subrange(0, q.len() - 1) =~= xs.subrange(0, k));
        lemma_stmts_err(xs, cx, scope, mark, ind, k + 1);
    } else {
        assert(xs.subrange(0, k) =~= xs);
    }
}

fn in_block(scope: &Vec<String>, mark: usize, name: &str) -> (r: bool)
    requires
        mark <= scope@.len(),
    ensures
        r == names_view(scope@).subrange(mark as int, scope@.len() as int).contains(name@),
{
    let ghost v = names_view(scope@);
    let n = scope.len();
    let mut j: usize = mark;
    while j < n
        invariant
            n == scope@.len(),
            v == names_view(scope@),
            mark <= j <= n,
            forall|k: int| mark <= k < j ==> v[k] != name@,
        decreases n - j,
    {
        if string_is(&scope[j], name) {
            assert(v.subrange(mark as int, n as int)[j - mark] == name@);
            return true;
        }
        j = j + 1;
    }
    assert forall|k: int| 0 <= k < v.subrange(mark as int, n as int).len() implies v.subrange(mark as int, n as int)[k] != name@ by {
        assert(v.subrange(mark as int, n as int)[k] == v[mark + k]);
    }
    false
}

fn emit_let(name: &String, t: &String, scope: &Vec<String>, mark: usize, ind: &String, out: &mut String)
    requires
        mark <= scope@.len(),
    ensures
        final(out)@ == old(out)@ + let_text(name@, t@, names_view(scope@), mark as int, ind@),
{
    let ghost out0 = out@;
    if in_block(scope, mark, name.as_str()) {
        push_str(out, ind.as_str());
        push_str(out, "v_");
        push_c_ident(out, name.as_str());
        push_str(out, " = ");
        push_str(out, t.as_str());
        push_str(out, ";\n");
    } else if crate::text::contains_str(scope, name.as_str()) {
        push_str(out, ind.as_str());
        push_str(out, "WValue s_");
        push_c_ident(out, name.as_str());
        push_str(out, " = ");
        push_str(out, t.as_str());
        push_str(out, ";\n");
        push_str(out, ind.as_str());
        push_str(out, "WValue ");
        push_str(out, "v_");
        push_c_ident(out, name.as_str());
        push_str(out, " = s_");
        push_c_ident(out, name.as_str());
        push_str(out, ";\n");
    } else {
        push_str(out, ind.as_str());
        push_str(out, "WValue ");
        push_str(out, "v_");
        push_c_ident(out, name.as_str());
        push_str(out, " = ");
        push_str(out, t.as_str());
        push_str(out, ";\n");
    }
    assert(out@ =~= out0 + let_text(name@, t@, names_view(scope@), mark as int, ind@));
}

/// The text of an `if` whose parts are already emitted.
pub open spec fn if_text(ind: Seq<char>, c: Seq<char>, t: Seq<char>, u: Option<Seq<char>>) -> Seq<char> {
    match u {
        Some(u) => ind + "if (w_as_bool("@ + c + ")) {\n"@ + t + ind + "} else {\n"@ + u + ind + "}\n"@,
        None => ind + "if (w_as_bool("@ + c + ")) {\n"@ + t + ind + "}\n"@,
    }
}

fn push_if(out: &mut String, ind: &String, c: &String, t: &String, u: Option<&String>)
    ensures
        final(out)@ == old(out)@ + if_text(ind@, c@, t@, match u { Some(x) => Some(x@), None => None }),
{
    let ghost out0 = out@;
    push_str(out, ind.as_str());
    push_str(out, "if (w_as_bool(");
    push_str(out, c.as_str());
    push_str(out, ")) {\n");
    push_str(out, t.as_str());
    push_str(out, ind.as_str());
    match u {
        Some(x) => {
            push_str(out, "} else {\n");
            push_str(out, x.as_str());
            push_str(out, ind.as_str());
            push_str(out, "}\n");
        },
        None => {
            push_str(out, "}\n");
        },
    }
    assert(out@ =~= out0 + if_text(ind@, c@, t@, match u { Some(x) => Some(x@), None => None }));
}

fn emit_if(
    cond: &Expr,
    then_block: &Block,
    else_block: &Option<Block>,
    cx: &Names,
    scope: &Vec<String>,
    ind: &String,
    out: &mut String,
) -> (r: Result<(), CodegenError>)
    ensures
        stmts_emitted(
            r,
            c_stmt(Stmt::If { cond: *cond, then_block: *then_block, else_block: *else_block, span: Span { start: 0, end: 0 } }, cx@, names_view(scope@), 0, ind@),
            old(out)@,
            final(out)@,
            names_view(scope@),
        ),
    decreases crate::ast::expr_size(*cond) + crate::ast::stmts_size(then_block.stmts@) + match *else_block {
        Some(b) => crate::ast::stmts_size(b.stmts@),
        None => 0,
    }, 3int,
{
    let ghost sc = names_view(scope@);
    let c = match emit_expr(cond, cx, scope) {
        Ok(c) => c,
        Err(x) => return Err(x),
    };
    let mut inner = String::new();
    push_str(&mut inner, ind.as_str());
    push_str(&mut inner, "    ");
    assert(inner@ =~= ind@ + "    "@);
    let mut then_text = String::new();
    let mut then_scope = copy_names(scope);
    let m = then_scope.len();
    match emit_stmts(&then_block.stmts, cx, &mut then_scope, m, &inner, &mut then_text) {
        Ok(()) => {},
        Err(x) => return Err(x),
    }
    assert(then_text@ =~= Seq::<char>::empty() + then_text@);
    match else_block {
        Some(b) => {
            let mut else_text = String::new();
            let mut else_scope = copy_names(scope);
            let m2 = else_scope.len();
            match emit_stmts(&b.stmts, cx, &mut else_scope, m2, &inner, &mut else_text) {
                Ok(()) => {},
                Err(x) => return Err(x),
            }
            assert(else_text@ =~= Seq::<char>::empty() + else_text@);
            push_if(out, ind, &c, &then_text, Some(&else_text));
        },
        None => {
            push_if(out, ind, &c, &then_text, None);
        },
    }
    Ok(())
}

fn emit_stmt(s: &Stmt, cx: &Names, scope: &mut Vec<String>, mark: usize, ind: &String, out: &mut String) -> (r: Result<(), CodegenError>)
    requires
        mark <= old(scope)@.len(),
    ensures
        stmts_emitted(r, c_stmt(*s, cx@, names_view(old(scope)@), mark as int, ind@), old(out)@, final(out)@, names_view(final(scope)@)),
        old(scope)@.len() <= final(scope)@.len(),
    decreases crate::ast::stmt_size(*s), 4int,
{
    let ghost sc0 = names_view(scope@);
    let ghost out0 = out@;
    match s {
        Stmt::Let { name, value, .. } => {
            let t = match emit_expr(value, cx, scope) {
                Ok(t) => t,
                Err(x) => return Err(x),
            };
            emit_let(name, &t, scope, mark, ind, out);
            scope.push(copy_string(name));
            assert(names_view(scope@) =~= sc0.push(name@));
            Ok(())
        },
        Stmt::Expr(e) => {
            let t = match emit_expr(e, cx, scope) {
                Ok(t) => t,
                Err(x) => return Err(x),
            };
            push_str(out, ind.as_str());
            push_str(out, t.as_str());
            push_str(out, ";\n");
            assert(out@ =~= out0 + (ind@ + t@ + ";\n"@));
            Ok(())
        },
        Stmt::Return { value, .. } => {
            match value {
                Some(e) => {
                    let t = match emit_expr(e, cx, scope) {
                        Ok(t) => t,
                        Err(x) => return Err(x),
                    };
                    push_str(out, ind.as_str());
                    push_str(out, "return ");
                    push_str(out, t.as_str());
                    push_str(out, ";\n");
                    assert(out@ =~= out0 + (ind@ + "return "@ + t@ + ";\n"@));
                },
                None => {
                    push_str(out, ind.as_str());
                    push_str(out, "return w_unit();\n");
                    assert(out@ =~= out0 + (ind@ + "return w_unit();\n"@));
                },
            }
            Ok(())
        },
        Stmt::If { cond, then_block, else_block, .. } => {
            let r = emit_if(cond, then_block, else_block, cx, scope, ind, out);
            r
        },
        Stmt::Check { predicate, blame, .. } => {
            let p = match emit_expr(predicate, cx, scope) {
                Ok(p) => p,
                Err(x) => return Err(x),
            };
            push_str(out, ind.as_str());
            push_str(out, "if (!w_as_bool(");
            push_str(out, p.as_str());
            push_str(out, ")) w_trap(");
            match blame {
                Blame::Caller => push_quoted(out, "precondition violated (blame: caller)"),
                Blame::Implementation => push_quoted(out, "postcondition violated (blame: implementation)"),
            }
            push_str(out, ");\n");
            assert(out@ =~= out0 + (ind@ + "if (!w_as_bool("@ + p@ + ")) w_trap("@ + quoted(blame_message(*blame)) + ");\n"@));
            Ok(())
        },
    }
}

fn emit_stmts(ss: &Vec<Stmt>, cx: &Names, scope: &mut Vec<String>, mark: usize, ind: &String, out: &mut String) -> (r: Result<(), CodegenError>)
    requires
        mark <= old(scope)@.len(),
    ensures
        stmts_emitted(r, c_stmts(ss@, cx@, names_view(old(scope)@), mark as int, ind@), old(out)@, final(out)@, names_view(final(scope)@)),
    decreases crate::ast::stmts_size(ss@), 0int,
{
    let ghost sc0 = names_view(scope@);
    let ghost out0 = out@;
    let n = ss.len();
    let mut i: usize = 0;
    assert(ss@.subrange(0, 0) =~= Seq::<Stmt>::empty());
    assert(out0 + Seq::<char>::empty() =~= out0);
    while i < n
        invariant
            n == ss@.len(),
            i <= n,
            mark <= scope@.len(),
            sc0 == names_view(old(scope)@),
            out0 == old(out)@,
            match c_stmts(ss@.subrange(0, i as int), cx@, sc0, mark as int, ind@) {
                Ok((t, sc)) => out@ == out0 + t && names_view(scope@) == sc,
                Err(_) => false,
            },
        decreases n - i,
    {
        proof {
            crate::ast::lemma_stmts_size(ss@, i as int);
        }
        let ghost q = ss@.subrange(0, i + 1);
        proof {
            assert(q.subrange(0, q.len() - 1) =~= ss@.subrange(0, i as int));
            assert(q[q.len() - 1] == ss@[i as int]);
        }
        let ghost before = out@;
        let ghost sc_i = names_view(scope@);
        let r = emit_stmt(&ss[i], cx, scope, mark, ind, out);
        match r {
            Ok(()) => {},
            Err(x) => {
                proof {
                    assert(c_stmt(ss@[i as int], cx@, sc_i, mark as int, ind@) is Err);
                    assert(c_stmts(q, cx@, sc0, mark as int, ind@) == c_stmt(ss@[i as int], cx@, sc_i, mark as int, ind@));
                    lemma_stmts_err(ss@, cx@, sc0, mark as int, ind@, i + 1);
                }
                return Err(x);
            },
        }
        i = i + 1;
    }
    assert(ss@.subrange(0, n as int) =~= ss@);
    Ok(())
}

/// The parameter list of a prototype: `WValue p0, WValue p1, ...`, or
/// `void` when there are none.
pub open spec fn proto_params(k: nat) -> Seq<char>
    decreases k,
{
    if k == 0 {
        "void"@
    } else if k == 1 {
        "WValue p"@ + decimal(0)
    } else {
        proto_params((k - 1) as nat) + ", WValue p"@ + decimal((k - 1) as nat)
    }
}

/// A function's C prototype, without its return type.
pub open spec fn proto(name: Seq<char>, k: nat) -> Seq<char> {
    fn_cname(name) + "("@ + proto_params(k) + ")"@
}

/// The parameters bound to their local names, and the resulting scope. A
/// repeated name is assigned rather than declared again.
pub open spec fn c_params(ps: Seq<Param>) -> (Seq<char>, Seq<Seq<char>>)
    decreases ps.len(),
{
    if ps.len() == 0 {
        (Seq::empty(), Seq::empty())
    } else {
        let (t, sc) = c_params(ps.drop_last());
        let n = ps.last().name@;
        (t + "    "@ + (if sc.contains(n) { Seq::<char>::empty() } else { "WValue "@ }) + local_name(n) + " = p"@
            + decimal((ps.len() - 1) as nat) + ";\n"@, sc.push(n))
    }
}

/// A function definition. A body that falls off its end yields `Unit`.
pub open spec fn c_function(f: Function, cx: Cx) -> Result<Seq<char>, CgErr> {
    let (pt, sc) = c_params(f.signature.params@);
    match c_stmts(f.body.stmts@, cx, sc, 0, "    "@) {
        Ok((b, _)) => Ok("static WValue "@ + proto(f.signature.name@, f.signature.params@.len()) + " {\n"@ + pt + b
            + "    return w_unit();\n}\n\n"@),
        Err(x) => Err(x),
    }
}

/// The constructors a list of items declares, with their arities.
pub open spec fn module_ctors(items: Seq<Item>) -> Seq<(Seq<char>, nat)>
    decreases items.len(),
{
    if items.len() == 0 {
        Seq::empty()
    } else {
        module_ctors(items.drop_last()) + match items.last() {
            Item::Type(d) => d.variants@.map_values(|v: crate::ast::Variant| (v.name@, v.fields@.len())),
            Item::Function(_) => Seq::empty(),
        }
    }
}

/// What the translation knows of a list of items.
pub open spec fn module_cx(items: Seq<Item>) -> Cx {
    (fn_names(items), module_ctors(items))
}

/// The position of the first function named `main`.
pub open spec fn main_item(items: Seq<Item>) -> Option<int>
    decreases items.len(),
{
    if items.len() == 0 {
        None
    } else {
        match main_item(items.drop_last()) {
            Some(j) => Some(j),
            None => match items.last() {
                Item::Function(f) => if f.signature.name@ == "main"@ { Some(items.len() - 1) } else { None },
                Item::Type(_) => None,
            },
        }
    }
}

/// The position of the first function whose name an earlier one took.
pub open spec fn dup_item(items: Seq<Item>) -> Option<int>
    decreases items.len(),
{
    if items.len() == 0 {
        None
    } else {
        match dup_item(items.drop_last()) {
            Some(j) => Some(j),
            None => match items.last() {
                Item::Function(f) => if fn_names(items.drop_last()).contains(f.signature.name@) {
                    Some(items.len() - 1)
                } else {
                    None
                },
                Item::Type(_) => None,
            },
        }
    }
}

/// The forward declarations of the functions, in order.
pub open spec fn c_decls(items: Seq<Item>) -> Seq<char>
    decreases items.len(),
{
    if items.len() == 0 {
        Seq::empty()
    } else {
        c_decls(items.drop_last()) + match items.last() {
            Item::Function(f) => "static WValue "@ + proto(f.signature.name@, f.signature.params@.len()) + ";\n"@,
            Item::Type(_) => Seq::empty(),
        }
    }
}

/// The function definitions, in order.
pub open spec fn c_defs(items: Seq<Item>, cx: Cx) -> Result<Seq<char>, CgErr>
    decreases items.len(),
{
    if items.len() == 0 {
        Ok(Seq::empty())
    } else {
        match c_defs(items.drop_last(), cx) {
            Ok(t) => match items.last() {
                Item::Function(f) => match c_function(f, cx) {
                    Ok(u) => Ok(t + u),
                    Err(x) => Err(x),
                },
                Item::Type(_) => Ok(t),
            },
            Err(x) => Err(x),
        }
    }
}

/// What the runtime hands a parameter of `main`: the capability its type
/// names (the root capability when it names none), `Unit` for anything else.
pub open spec fn main_arg(p: Param) -> Seq<char> {
    if p.ty.name@ == "Cap"@ {
        "w_cap("@ + quoted(if p.ty.args@.len() > 0 { p.ty.args@[0].name@ } else { "Root"@ }) + ")"@
    } else {
        "w_unit()"@
    }
}

/// The C entry point: it calls Writ's `main` and exits with status 0.
pub open spec fn c_entry(f: Function) -> Seq<char> {
    "int main(void) {\n    "@ + fn_cname("main"@) + "("@ + sep_join(f.signature.params@.map_values(|p: Param| main_arg(p)), ", "@)
        + ");\n    return 0;\n}\n"@
}

/// The C translation unit of a module: the prelude, forward declarations,
/// definitions and the entry point. A module without `main`, or with two
/// functions of one name, is refused.
pub open spec fn c_module(m: Module) -> Result<Seq<char>, CgErr> {
    let items = m.items@;
    match main_item(items) {
        None => Err((Span { start: 0, end: 0 }, "no `main` function to build"@)),
        Some(j) => match dup_item(items) {
            Some(d) => match items[d] {
                Item::Function(f) => Err((f.span, "function `"@ + f.signature.name@ + "` is defined more than once"@)),
                Item::Type(_) => Err((Span { start: 0, end: 0 }, Seq::empty())),
            },
            None => match c_defs(items, module_cx(items)) {
                Ok(defs) => match items[j] {
                    Item::Function(f) => Ok(c_prelude() + "\n"@ + c_decls(items) + "\n"@ + defs + c_entry(f)),
                    Item::Type(_) => Ok(Seq::empty()),
                },
                Err(x) => Err(x),
            },
        },
    }
}

fn push_proto(out: &mut String, name: &str, k: usize)
    ensures
        final(out)@ == old(out)@ + proto(name@, k as nat),
{
    let ghost out0 = out@;
    push_str(out, "wf_");
    push_c_ident(out, name);
    push_str(out, "(");
    let ghost mid = out@;
    if k == 0 {
        push_str(out, "void");
    } else {
        push_str(out, "WValue p");
        push_usize(out, 0);
        let mut i: usize = 1;
        while i < k
            invariant
                1 <= i <= k,
                out@ == mid + proto_params(i as nat),
            decreases k - i,
        {
            push_str(out, ", WValue p");
            push_usize(out, i);
            assert(proto_params((i + 1) as nat) == proto_params(i as nat) + ", WValue p"@ + decimal(i as nat));
            i = i + 1;
        }
    }
    push_str(out, ")");
    assert(out@ =~= out0 + proto(name@, k as nat));
}

fn emit_params(ps: &Vec<Param>, out: &mut String) -> (scope: Vec<String>)
    ensures
        final(out)@ == old(out)@ + c_params(ps@).0,
        names_view(scope@) == c_params(ps@).1,
{
    let ghost out0 = out@;
    let mut scope: Vec<String> = Vec::new();
    let n = ps.len();
    let mut i: usize = 0;
    assert(ps@.subrange(0, 0) =~= Seq::<Param>::empty());
    assert(names_view(scope@) =~= Seq::<Seq<char>>::empty());
    assert(out0 + Seq::<char>::empty() =~= out0);
    while i < n
        invariant
            n == ps@.len(),
            i <= n,
            out@ == out0 + c_params(ps@.subrange(0, i as int)).0,
            names_view(scope@) == c_params(ps@.subrange(0, i as int)).1,
        decreases n - i,
    {
        let ghost q = ps@.subrange(0, i + 1);
        proof {
            assert(q.drop_last() =~= ps@.subrange(0, i as int));
            assert(q.last() == ps@[i as int]);
        }
        let name = &ps[i].name;
        let seen = crate::text::contains_str(&scope, name.as_str());
        push_str(out, "    ");
        if !seen {
            push_str(out, "WValue ");
        }
        push_str(out, "v_");
        push_c_ident(out, name.as_str());
        push_str(out, " = p");
        push_usize(out, i);
        push_str(out, ";\n");
        let ghost sc = names_view(scope@);
        scope.push(copy_string(name));
        proof {
            assert(names_view(scope@) =~= sc.push(name@));
            assert(out@ =~= out0 + c_params(q).0);
        }
        i = i + 1;
    }
    assert(ps@.subrange(0, n as int) =~= ps@);
    scope
}

fn emit_function(f: &Function, cx: &Names, out: &mut String) -> (r: Result<(), CodegenError>)
    ensures
        match c_function(*f, cx@) {
            Ok(t) => r is Ok && final(out)@ == old(out)@ + t,
            Err(x) => r is Err && r->Err_0.span == x.0 && r->Err_0.message@ == x.1,
        },
{
    let mut text = String::new();
    push_str(&mut text, "static WValue ");
    push_proto(&mut text, f.signature.name.as_str(), f.signature.params.len());
    push_str(&mut text, " {\n");
    let ghost head = text@;
    let mut scope = emit_params(&f.signature.params, &mut text);
    let ghost with_params = text@;
    let mut ind = String::new();
    push_str(&mut ind, "    ");
    let mut body = String::new();
    match emit_stmts(&f.body.stmts, cx, &mut scope, 0, &ind, &mut body) {
        Ok(()) => {},
        Err(x) => return Err(x),
    }
    assert(body@ =~= Seq::<char>::empty() + body@);
    push_str(&mut text, body.as_str());
    push_str(&mut text, "    return w_unit();\n}\n\n");
    push_str(out, text.as_str());
    Ok(())
}

fn collect_names(items: &Vec<Item>) -> (cx: Names)
    ensures
        cx@ == module_cx(items@),
{
    let mut fns: Vec<String> = Vec::new();
    let mut ctors: Vec<Ctor> = Vec::new();
    let n = items.len();
    let mut i: usize = 0;
    assert(items@.subrange(0, 0) =~= Seq::<Item>::empty());
    assert(names_view(fns@) =~= Seq::<Seq<char>>::empty());
    assert(ctors@.map_values(|c: Ctor| (c.name@, c.arity as nat)) =~= Seq::<(Seq<char>, nat)>::empty());
    while i < n
        invariant
            n == items@.len(),
            i <= n,
            names_view(fns@) == fn_names(items@.subrange(0, i as int)),
            ctors@.map_values(|c: Ctor| (c.name@, c.arity as nat)) == module_ctors(items@.subrange(0, i as int)),
        decreases n - i,
    {
        let ghost q = items@.subrange(0, i + 1);
        proof {
            assert(q.drop_last() =~= items@.subrange(0, i as int));
            assert(q.last() == items@[i as int]);
        }
        let ghost fns0 = names_view(fns@);
        let ghost cs0 = ctors@.map_values(|c: Ctor| (c.name@, c.arity as nat));
        match &items[i] {
            Item::Function(f) => {
                fns.push(copy_string(&f.signature.name));
                assert(names_view(fns@) =~= fns0 + seq![f.signature.name@]);
                assert(ctors@.map_values(|c: Ctor| (c.name@, c.arity as nat)) =~= cs0 + Seq::<(Seq<char>, nat)>::empty());
            },
            Item::Type(d) => {
                let vs = &d.variants;
                let m = vs.len();
                let mut j: usize = 0;
                assert(cs0 + vs@.subrange(0, 0).map_values(|v: crate::ast::Variant| (v.name@, v.fields@.len())) =~= cs0);
                while j < m
                    invariant
                        m == vs@.len(),
                        j <= m,
                        ctors@.map_values(|c: Ctor| (c.name@, c.arity as nat)) == cs0 + vs@.subrange(0, j as int).map_values(
                            |v: crate::ast::Variant| (v.name@, v.fields@.len()),
                        ),
                    decreases m - j,
                {
                    let ghost before = ctors@.map_values(|c: Ctor| (c.name@, c.arity as nat));
                    ctors.push(Ctor { name: copy_string(&vs[j].name), arity: vs[j].fields.len() });
                    assert(ctors@.map_values(|c: Ctor| (c.name@, c.arity as nat)) =~= before.push((vs@[j as int].name@, vs@[j as int].fields@.len())));
                    assert(vs@.subrange(0, j + 1).map_values(|v: crate::ast::Variant| (v.name@, v.fields@.len())) =~= vs@.subrange(0, j as int).map_values(
                        |v: crate::ast::Variant| (v.name@, v.fields@.len()),
                    ).push((vs@[j as int].name@, vs@[j as int].fields@.len())));
                    j = j + 1;
                }
                assert(vs@.subrange(0, m as int) =~= vs@);
                assert(names_view(fns@) =~= fns0 + Seq::<Seq<char>>::empty());
            },
        }
        i = i + 1;
    }
    assert(items@.subrange(0, n as int) =~= items@);
    Names { fns, ctors }
}

proof fn lemma_main_item_stable(items: Seq<Item>, k: int)
    requires
        0 <= k <= items.len(),
        main_item(items.subrange(0, k)) is Some,
    ensures
        main_item(items) == main_item(items.subrange(0, k)),
    decreases items.len() - k,
{
    if k < items.len() {
        assert(items.subrange(0, k + 1).drop_last() =~= items.subrange(0, k));
        lemma_main_item_stable(items, k + 1);
    } else {
        assert(items.subrange(0, k) =~= items);
    }
}

proof fn lemma_dup_item_stable(items: Seq<Item>, k: int)
    requires
        0 <= k <= items.len(),
        dup_item(items.subrange(0, k)) is Some,
    ensures
        dup_item(items) == dup_item(items.subrange(0, k)),
    decreases items.len() - k,
{
    if k < items.len() {
        assert(items.subrange(0, k + 1).drop_last() =~= items.subrange(0, k));
        lemma_dup_item_stable(items, k + 1);
    } else {
        assert(items.subrange(0, k) =~= items);
    }
}

proof fn lemma_defs_err(items: Seq<Item>, cx: Cx, k: int)
    requires
        0 <= k <= items.len(),
        c_defs(items.subrange(0, k), cx) is Err,
    ensures
        c_defs(items, cx) == c_defs(items.subrange(0, k), cx),
    decreases items.len() - k,
{
    if k < items.len() {
        assert(items.subrange(0, k + 1).drop_last() =~= items.subrange(0, k));
        lemma_defs_err(items, cx, k + 1);
    } else {
        assert(items.subrange(0, k) =~= items);
    }
}

proof fn lemma_main_item_bound(items: Seq<Item>)
    ensures
        match main_item(items) {
            Some(j) => 0 <= j < items.len() && (items[j] matches Item::Function(f) && f.signature.name@ == "main"@),
            None => true,
        },
    decreases items.len(),
{
    if items.len() > 0 {
        lemma_main_item_bound(items.drop_last());
    }
}

proof fn lemma_dup_item_bound(items: Seq<Item>)
    ensures
        match dup_item(items) {
            Some(j) => 0 <= j < items.len() && items[j] is Function,
            None => true,
        },
    decreases items.len(),
{
    if items.len() > 0 {
        lemma_dup_item_bound(items.drop_last());
    }
}

fn main_arg_text(p: &Param) -> (r: String)
    ensures
        r@ == main_arg(*p),
{
    let mut out = String::new();
    if string_is(&p.ty.name, "Cap") {
        push_str(&mut out, "w_cap(");
        if p.ty.args.len() > 0 {
            push_quoted(&mut out, p.ty.args[0].name.as_str());
        } else {
            push_quoted(&mut out, "Root");
        }
        push_str(&mut out, ")");
    } else {
        push_str(&mut out, "w_unit()");
    }
    assert(out@ =~= main_arg(*p));
    out
}

fn push_entry(out: &mut String, f: &Function)
    ensures
        final(out)@ == old(out)@ + c_entry(*f),
{
    let ghost out0 = out@;
    let ps = &f.signature.params;
    let mut args: Vec<String> = Vec::new();
    let n = ps.len();
    let mut i: usize = 0;
    assert(names_view(args@) =~= ps@.subrange(0, 0).map_values(|p: Param| main_arg(p)));
    while i < n
        invariant
            n == ps@.len(),
            i <= n,
            names_view(args@) == ps@.subrange(0, i as int).map_values(|p: Param| main_arg(p)),
        decreases n - i,
    {
        let ghost before = names_view(args@);
        let t = main_arg_text(&ps[i]);
        let ghost tt = t@;
        args.push(t);
        assert(names_view(args@) =~= before.push(tt));
        assert(ps@.subrange(0, i + 1).map_values(|p: Param| main_arg(p)) =~= ps@.subrange(0, i as int).map_values(
            |p: Param| main_arg(p),
        ).push(main_arg(ps@[i as int])));
        i = i + 1;
    }
    assert(ps@.subrange(0, n as int) =~= ps@);
    push_str(out, "int main(void) {\n    ");
    push_str(out, "wf_");
    push_c_ident(out, "main");
    push_str(out, "(");
    push_joined(out, &args, ", ");
    push_str(out, ");\n    return 0;\n}\n");
    assert(out@ =~= out0 + c_entry(*f));
}

fn find_main(items: &Vec<Item>) -> (r: Option<usize>)
    ensures
        match r {
            Some(j) => main_item(items@) == Some(j as int),
            None => main_item(items@) is None,
        },
{
    let n = items.len();
    let mut i: usize = 0;
    assert(items@.subrange(0, 0) =~= Seq::<Item>::empty());
    while i < n
        invariant
            n == items@.len(),
            i <= n,
            main_item(items@.subrange(0, i as int)) is None,
        decreases n - i,
    {
        assert(items@.subrange(0, i + 1).drop_last() =~= items@.subrange(0, i as int));
        let found = match &items[i] {
            Item::Function(f) => string_is(&f.signature.name, "main"),
            Item::Type(_) => false,
        };
        if found {
            proof {
                lemma_main_item_stable(items@, i + 1);
            }
            return Some(i);
        }
        i = i + 1;
    }
    assert(items@.subrange(0, n as int) =~= items@);
    None
}

fn find_dup(items: &Vec<Item>) -> (r: Option<usize>)
    ensures
        match r {
            Some(d) => dup_item(items@) == Some(d as int),
            None => dup_item(items@) is None,
        },
{
    let n = items.len();
    let mut seen: Vec<String> = Vec::new();
    let mut i: usize = 0;
    assert(items@.subrange(0, 0) =~= Seq::<Item>::empty());
    assert(names_view(seen@) =~= fn_names(items@.subrange(0, 0)));
    while i < n
        invariant
            n == items@.len(),
            i <= n,
            names_view(seen@) == fn_names(items@.subrange(0, i as int)),
            dup_item(items@.subrange(0, i as int)) is None,
        decreases n - i,
    {
        let ghost q = items@.subrange(0, i + 1);
        assert(q.drop_last() =~= items@.subrange(0, i as int));
        assert(q.last() == items@[i as int]);
        match &items[i] {
            Item::Function(f) => {
                if crate::text::contains_str(&seen, f.signature.name.as_str()) {
                    proof {
                        lemma_dup_item_stable(items@, i + 1);
                    }
                    return Some(i);
                }
                let ghost before = names_view(seen@);
                seen.push(copy_string(&f.signature.name));
                assert(names_view(seen@) =~= before + seq![f.signature.name@]);
            },
            Item::Type(_) => {
                assert(fn_names(q) =~= fn_names(items@.subrange(0, i as int)));
            },
        }
        i = i + 1;
    }
    assert(items@.subrange(0, n as int) =~= items@);
    None
}

fn emit_decls(items: &Vec<Item>, out: &mut String)
    ensures
        final(out)@ == old(out)@ + c_decls(items@),
{
    let ghost head = out@;
    let n = items.len();
    let mut i: usize = 0;
    assert(head + c_decls(items@.subrange(0, 0)) =~= head);
    while i < n
        invariant
            n == items@.len(),
            i <= n,
            head == old(out)@,
            out@ == head + c_decls(items@.subrange(0, i as int)),
        decreases n - i,
    {
        let ghost q = items@.subrange(0, i + 1);
        assert(q.drop_last() =~= items@.subrange(0, i as int));
        assert(q.last() == items@[i as int]);
        match &items[i] {
            Item::Function(f) => {
                push_str(out, "static WValue ");
                push_proto(out, f.signature.name.as_str(), f.signature.params.len());
                push_str(out, ";\n");
            },
            Item::Type(_) => {},
        }
        assert(out@ =~= head + c_decls(q));
        i = i + 1;
    }
    assert(items@.subrange(0, n as int) =~= items@);
}

fn emit_defs(items: &Vec<Item>, cx: &Names, out: &mut String) -> (r: Result<(), CodegenError>)
    ensures
        match c_defs(items@, cx@) {
            Ok(t) => r is Ok && final(out)@ == old(out)@ + t,
            Err(x) => r is Err && r->Err_0.span == x.0 && r->Err_0.message@ == x.1,
        },
{
    let ghost head = out@;
    let n = items.len();
    let mut i: usize = 0;
    assert(items@.subrange(0, 0) =~= Seq::<Item>::empty());
    assert(head + Seq::<char>::empty() =~= head);
    while i < n
        invariant
            n == items@.len(),
            i <= n,
            head == old(out)@,
            match c_defs(items@.subrange(0, i as int), cx@) {
                Ok(t) => out@ == head + t,
                Err(_) => false,
            },
        decreases n - i,
    {
        let ghost q = items@.subrange(0, i + 1);
        assert(q.drop_last() =~= items@.subrange(0, i as int));
        assert(q.last() == items@[i as int]);
        match &items[i] {
            Item::Function(f) => {
                match emit_function(f, cx, out) {
                    Ok(()) => {},
                    Err(x) => {
                        proof {
                            assert(c_defs(q, cx@) == c_function(*f, cx@));
                            lemma_defs_err(items@, cx@, i + 1);
                        }
                        return Err(x);
                    },
                }
            },
            Item::Type(_) => {},
        }
        i = i + 1;
    }
    assert(items@.subrange(0, n as int) =~= items@);
    Ok(())
}

/// Emit a complete C translation unit for `module`, which is expected to be
/// checked, lowered (contracts already `Stmt::Check` nodes) and linked into
/// one module. A module without `main`, with two functions of one name, or
/// with a construct the back end refuses is an error.
pub fn emit_c(module: &Module) -> (r: Result<String, CodegenError>)
    ensures
        emitted(r, c_module(*module)),
{
    let items = &module.items;
    proof {
        lemma_main_item_bound(items@);
        lemma_dup_item_bound(items@);
    }
    let j = match find_main(items) {
        Some(j) => j,
        None => return Err(cg_error(Span { start: 0, end: 0 }, crate::text::owned("no `main` function to build"))),
    };
    match find_dup(items) {
        Some(d) => {
            match &items[d] {
                Item::Function(f) => {
                    let mut m = String::new();
                    push_str(&mut m, "function `");
                    push_str(&mut m, f.signature.name.as_str());
                    push_str(&mut m, "` is defined more than once");
                    assert(m@ =~= "function `"@ + f.signature.name@ + "` is defined more than once"@);
                    return Err(cg_error(f.span, m));
                },
                Item::Type(_) => {
                    return Err(cg_error(Span { start: 0, end: 0 }, String::new()));
                },
            }
        },
        None => {},
    }
    let cx = collect_names(items);
    let mut out = String::new();
    push_prelude(&mut out);
    push_str(&mut out, "\n");
    emit_decls(items, &mut out);
    push_str(&mut out, "\n");
    match emit_defs(items, &cx, &mut out) {
        Ok(()) => {},
        Err(x) => return Err(x),
    }
    match &items[j] {
        Item::Function(f) => push_entry(&mut out, f),
        Item::Type(_) => {},
    }
    Ok(out)
}

/// Once a prefix holds a function named `main`, the first such function
/// stays where it was.
pub proof fn lemma_main_item_some(items: Seq<Item>, k: int)
    requires
        0 < k <= items.len(),
        main_item(items.subrange(0, k - 1)) is None,
        items[k - 1] matches Item::Function(f) && f.signature.name@ == "main"@,
    ensures
        main_item(items) == Some(k - 1),
{
    assert(items.subrange(0, k).drop_last() =~= items.subrange(0, k - 1));
    assert(items.subrange(0, k).last() == items[k - 1]);
    lemma_main_item_stable(items, k);
}

/// Emission is a function of the tree: two emissions of one module give
/// the same text, or the same error.
pub proof fn law_emission_is_deterministic(m: Module, r1: Result<String, CodegenError>, r2: Result<String, CodegenError>)
    requires
        emitted(r1, c_module(m)),
        emitted(r2, c_module(m)),
    ensures
        r1 is Ok <==> r2 is Ok,
        r1 is Ok ==> r1->Ok_0@ == r2->Ok_0@,
        r1 is Err ==> r1->Err_0.span == r2->Err_0.span && r1->Err_0.message@ == r2->Err_0.message@,
{
}

} // verus!
