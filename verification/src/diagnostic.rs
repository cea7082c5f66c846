//! The single shared `Diagnostic` type for every stage, and its canonical JSON
//! rendering.

use vstd::prelude::*;
use crate::span::Span;
use crate::text::{decimal, push_char, push_str, push_usize};

verus! {

/// How severe a diagnostic is. Only errors block compilation.
#[derive(Debug, Clone, Copy, PartialEq, Eq, Hash, Structural)]
pub enum Severity {
    /// A problem that prevents the program from being accepted.
    Error,
    /// A concern that does not block compilation.
    Warning,
}

/// The stable, lowercase wire name of a severity.
pub open spec fn severity_name(s: Severity) -> Seq<char> {
    match s {
        Severity::Error => "error"@,
        Severity::Warning => "warning"@,
    }
}

impl Severity {
    /// The stable, lowercase wire name used in serialized output.
    pub fn as_str(self) -> (r: &'static str)
        ensures
            r@ == severity_name(self),
    {
        match self {
            Severity::Error => "error",
            Severity::Warning => "warning",
        }
    }
}

/// Which side a failed contract blames.
#[derive(Debug, Clone, Copy, PartialEq, Eq, Hash, Structural)]
pub enum Blame {
    /// A failed precondition: the caller passed bad input.
    Caller,
    /// A failed postcondition: the implementation returned a wrong answer.
    Implementation,
}

/// The stable, lowercase wire name of a blame direction.
pub open spec fn blame_name(b: Blame) -> Seq<char> {
    match b {
        Blame::Caller => "caller"@,
        Blame::Implementation => "implementation"@,
    }
}

impl Blame {
    /// The stable, lowercase wire name used in serialized output.
    pub fn as_str(self) -> (r: &'static str)
        ensures
            r@ == blame_name(self),
    {
        match self {
            Blame::Caller => "caller",
            Blame::Implementation => "implementation",
        }
    }
}

/// A single machine-readable diagnostic.
#[derive(Debug, Clone, PartialEq, Eq, Hash)]
pub struct Diagnostic {
    /// Stable identifier for the rule that produced this diagnostic.
    pub code: String,
    /// Exact source location the diagnostic refers to.
    pub span: Span,
    /// Human-facing description.
    pub message: String,
    /// Whether this blocks compilation.
    pub severity: Severity,
    /// Blame direction, present only for contract diagnostics.
    pub blame: Option<Blame>,
}

/// The JSON string-body escape of one character.
pub open spec fn escape_char(c: char) -> Seq<char> {
    if c == '"' {
        seq!['\\', '"']
    } else if c == '\\' {
        seq!['\\', '\\']
    } else if c == '\n' {
        seq!['\\', 'n']
    } else if c == '\r' {
        seq!['\\', 'r']
    } else if c == '\t' {
        seq!['\\', 't']
    } else if (c as u32) < 0x20 {
        seq!['\\', 'u', '0', '0', hex_char(((c as u32) / 16) as nat), hex_char(((c as u32) % 16) as nat)]
    } else {
        seq![c]
    }
}

/// The lowercase hexadecimal digit for `d < 16`.
pub open spec fn hex_char(d: nat) -> char {
    if d < 10 {
        crate::text::digit_char(d)
    } else if d == 10 { 'a' }
    else if d == 11 { 'b' }
    else if d == 12 { 'c' }
    else if d == 13 { 'd' }
    else if d == 14 { 'e' }
    else { 'f' }
}

/// The JSON string-body escape of a whole text: each character escaped in turn.
pub open spec fn escape(s: Seq<char>) -> Seq<char>
    decreases s.len(),
{
    if s.len() == 0 {
        Seq::empty()
    } else {
        escape(s.drop_last()) + escape_char(s.last())
    }
}

/// The canonical JSON object of a diagnostic: fields in the fixed order
/// `code`, `severity`, `span`, `message`, then `blame` when present.
pub open spec fn json_of(code: Seq<char>, sev: Severity, span: Span, message: Seq<char>, blame: Option<Blame>) -> Seq<char> {
    "{\"code\":\""@ + escape(code) + "\",\"severity\":\""@ + severity_name(sev)
        + "\",\"span\":{\"start\":"@ + decimal(span.start as nat) + ",\"end\":"@
        + decimal(span.end as nat) + "},\"message\":\""@ + escape(message) + "\""@
        + match blame {
            Some(b) => ",\"blame\":\""@ + blame_name(b) + "\""@,
            None => Seq::empty(),
        } + "}"@
}

/// The canonical JSON array of a sequence of diagnostics, in order.
pub open spec fn json_array_body(ds: Seq<Diagnostic>) -> Seq<char>
    decreases ds.len(),
{
    if ds.len() == 0 {
        Seq::empty()
    } else if ds.len() == 1 {
        ds[0].json()
    } else {
        json_array_body(ds.drop_last()) + ","@ + ds.last().json()
    }
}

fn hex(d: u32) -> (c: char)
    requires
        d < 16,
    ensures
        c == hex_char(d as nat),
{
    if d == 0 { '0' }
    else if d == 1 { '1' }
    else if d == 2 { '2' }
    else if d == 3 { '3' }
    else if d == 4 { '4' }
    else if d == 5 { '5' }
    else if d == 6 { '6' }
    else if d == 7 { '7' }
    else if d == 8 { '8' }
    else if d == 9 { '9' }
    else if d == 10 { 'a' }
    else if d == 11 { 'b' }
    else if d == 12 { 'c' }
    else if d == 13 { 'd' }
    else if d == 14 { 'e' }
    else { 'f' }
}

fn push_escaped_char(out: &mut String, c: char)
    ensures
        final(out)@ == old(out)@ + escape_char(c),
{
    let ghost o = out@;
    if c == '"' {
        push_char(out, '\\');
        push_char(out, '"');
    } else if c == '\\' {
        push_char(out, '\\');
        push_char(out, '\\');
    } else if c == '\n' {
        push_char(out, '\\');
        push_char(out, 'n');
    } else if c == '\r' {
        push_char(out, '\\');
        push_char(out, 'r');
    } else if c == '\t' {
        push_char(out, '\\');
        push_char(out, 't');
    } else if (c as u32) < 0x20 {
        push_char(out, '\\');
        push_char(out, 'u');
        push_char(out, '0');
        push_char(out, '0');
        push_char(out, hex((c as u32) / 16));
        push_char(out, hex((c as u32) % 16));
    } else {
        push_char(out, c);
    }
    assert(out@ =~= o + escape_char(c));
}

/// Append the JSON string-body escape of `s` to `out`.
pub fn push_escaped(out: &mut String, s: &str)
    ensures
        final(out)@ == old(out)@ + escape(s@),
{
    let n = s.unicode_len();
    let mut i: usize = 0;
    let ghost o = out@;
    assert(s@.take(0) =~= Seq::<char>::empty());
    while i < n
        invariant
            n == s@.len(),
            i <= n,
            out@ == o + escape(s@.take(i as int)),
        decreases n - i,
    {
        let c = s.get_char(i);
        push_escaped_char(out, c);
        assert(s@.take(i + 1).drop_last() =~= s@.take(i as int));
        assert(s@.take(i + 1).last() == c);
        i = i + 1;
    }
    assert(s@.take(n as int) =~= s@);
}

/// What a checker's report is made of: each diagnostic's code, span and
/// message.
impl View for Diagnostic {
    type V = (Seq<char>, Span, Seq<char>);

    open spec fn view(&self) -> (Seq<char>, Span, Seq<char>) {
        (self.code@, self.span, self.message@)
    }
}

/// `v` is exactly the list of errors `s` (code, span, message), in order,
/// each of error severity and without blame.
pub open spec fn errors_as(v: Seq<Diagnostic>, s: Seq<(Seq<char>, Span, Seq<char>)>) -> bool {
    &&& v.len() == s.len()
    &&& forall|i: int|
        0 <= i < v.len() ==> {
            &&& #[trigger] v[i]@ == s[i]
            &&& v[i].severity == Severity::Error
            &&& v[i].blame is None
        }
}

/// Appending one error extends the list it stands for.
pub proof fn lemma_errors_push(
    v: Seq<Diagnostic>,
    s: Seq<(Seq<char>, Span, Seq<char>)>,
    d: Diagnostic,
)
    requires
        errors_as(v, s),
        d.severity == Severity::Error,
        d.blame is None,
    ensures
        errors_as(v.push(d), s.push(d@)),
{
    assert forall|i: int| 0 <= i < v.len() + 1 implies {
        &&& #[trigger] v.push(d)[i]@ == s.push(d@)[i]
        &&& v.push(d)[i].severity == Severity::Error
        &&& v.push(d)[i].blame is None
    } by {
        if i < v.len() {
            assert(v.push(d)[i] == v[i]);
            assert(v[i]@ == s[i]);
            assert(s.push(d@)[i] == s[i]);
        } else {
            assert(v.push(d)[i] == d);
            assert(s.push(d@)[i] == d@);
        }
    }
}

/// `v` is exactly the list of warnings `s` (code, span, message), in order,
/// each of warning severity and without blame.
pub open spec fn warnings_as(v: Seq<Diagnostic>, s: Seq<(Seq<char>, Span, Seq<char>)>) -> bool {
    &&& v.len() == s.len()
    &&& forall|i: int|
        0 <= i < v.len() ==> {
            &&& #[trigger] v[i]@ == s[i]
            &&& v[i].severity == Severity::Warning
            &&& v[i].blame is None
        }
}

/// Appending one warning extends the list it stands for.
pub proof fn lemma_warnings_push(
    v: Seq<Diagnostic>,
    s: Seq<(Seq<char>, Span, Seq<char>)>,
    d: Diagnostic,
)
    requires
        warnings_as(v, s),
        d.severity == Severity::Warning,
        d.blame is None,
    ensures
        warnings_as(v.push(d), s.push(d@)),
{
    assert forall|i: int| 0 <= i < v.len() + 1 implies {
        &&& #[trigger] v.push(d)[i]@ == s.push(d@)[i]
        &&& v.push(d)[i].severity == Severity::Warning
        &&& v.push(d)[i].blame is None
    } by {
        if i < v.len() {
            assert(v.push(d)[i] == v[i]);
            assert(v[i]@ == s[i]);
            assert(s.push(d@)[i] == s[i]);
        } else {
            assert(v.push(d)[i] == d);
            assert(s.push(d@)[i] == d@);
        }
    }
}

/// Concatenating two warning lists concatenates what they stand for.
pub proof fn lemma_warnings_append(
    v: Seq<Diagnostic>,
    s: Seq<(Seq<char>, Span, Seq<char>)>,
    w: Seq<Diagnostic>,
    t: Seq<(Seq<char>, Span, Seq<char>)>,
)
    requires
        warnings_as(v, s),
        warnings_as(w, t),
    ensures
        warnings_as(v + w, s + t),
{
    assert forall|i: int| 0 <= i < v.len() + w.len() implies {
        &&& #[trigger] (v + w)[i]@ == (s + t)[i]
        &&& (v + w)[i].severity == Severity::Warning
        &&& (v + w)[i].blame is None
    } by {
        if i < v.len() {
            assert((v + w)[i] == v[i]);
            assert(v[i]@ == s[i]);
            assert((s + t)[i] == s[i]);
        } else {
            assert((v + w)[i] == w[i - v.len()]);
            assert(w[i - v.len()]@ == t[i - v.len()]);
            assert((s + t)[i] == t[i - s.len()]);
        }
    }
}

/// Concatenating two error lists concatenates what they stand for.
pub proof fn lemma_errors_append(
    v: Seq<Diagnostic>,
    s: Seq<(Seq<char>, Span, Seq<char>)>,
    w: Seq<Diagnostic>,
    t: Seq<(Seq<char>, Span, Seq<char>)>,
)
    requires
        errors_as(v, s),
        errors_as(w, t),
    ensures
        errors_as(v + w, s + t),
{
    assert forall|i: int| 0 <= i < v.len() + w.len() implies {
        &&& #[trigger] (v + w)[i]@ == (s + t)[i]
        &&& (v + w)[i].severity == Severity::Error
        &&& (v + w)[i].blame is None
    } by {
        if i < v.len() {
            assert((v + w)[i] == v[i]);
            assert(v[i]@ == s[i]);
            assert((s + t)[i] == s[i]);
        } else {
            assert((v + w)[i] == w[i - v.len()]);
            assert(w[i - v.len()]@ == t[i - v.len()]);
            assert((s + t)[i] == t[i - v.len()]);
        }
    }
}

/// Push an error with an owned message onto a report.
pub fn push_error(out: &mut Vec<Diagnostic>, code: &str, span: Span, message: String)
    ensures
        final(out)@.len() == old(out)@.len() + 1,
        final(out)@ == old(out)@.push(final(out)@.last()),
        final(out)@.last()@ == (code@, span, message@),
        final(out)@.last().severity == Severity::Error,
        final(out)@.last().blame is None,
{
    out.push(Diagnostic {
        code: String::from_str(code),
        span,
        message,
        severity: Severity::Error,
        blame: None,
    });
}

impl Diagnostic {
    /// Construct an error-severity diagnostic.
    pub fn error(code: &str, span: Span, message: &str) -> (d: Diagnostic)
        ensures
            d.code@ == code@,
            d.span == span,
            d.message@ == message@,
            d.severity == Severity::Error,
            d.blame is None,
    {
        Diagnostic {
            code: String::from_str(code),
            span,
            message: String::from_str(message),
            severity: Severity::Error,
            blame: None,
        }
    }

    /// Construct a warning-severity diagnostic.
    pub fn warning(code: &str, span: Span, message: &str) -> (d: Diagnostic)
        ensures
            d.code@ == code@,
            d.span == span,
            d.message@ == message@,
            d.severity == Severity::Warning,
            d.blame is None,
    {
        Diagnostic {
            code: String::from_str(code),
            span,
            message: String::from_str(message),
            severity: Severity::Warning,
            blame: None,
        }
    }

    /// Attach a blame direction (for contract diagnostics).
    pub fn with_blame(self, blame: Blame) -> (d: Diagnostic)
        ensures
            d.code == self.code,
            d.span == self.span,
            d.message == self.message,
            d.severity == self.severity,
            d.blame == Some(blame),
    {
        let mut d = self;
        d.blame = Some(blame);
        d
    }

    /// Whether this diagnostic blocks compilation.
    pub fn is_error(&self) -> (b: bool)
        ensures
            b == (self.severity == Severity::Error),
    {
        match self.severity {
            Severity::Error => true,
            Severity::Warning => false,
        }
    }

    /// The canonical JSON text of this diagnostic.
    pub open spec fn json(self) -> Seq<char> {
        json_of(self.code@, self.severity, self.span, self.message@, self.blame)
    }

    /// Serialize to a single canonical JSON object.
    pub fn to_json(&self) -> (s: String)
        ensures
            s@ == self.json(),
    {
        let mut out = String::new();
        push_str(&mut out, "{\"code\":\"");
        push_escaped(&mut out, self.code.as_str());
        push_str(&mut out, "\",\"severity\":\"");
        push_str(&mut out, self.severity.as_str());
        push_str(&mut out, "\",\"span\":{\"start\":");
        push_usize(&mut out, self.span.start);
        push_str(&mut out, ",\"end\":");
        push_usize(&mut out, self.span.end);
        push_str(&mut out, "},\"message\":\"");
        push_escaped(&mut out, self.message.as_str());
        push_str(&mut out, "\"");
        match self.blame {
            Some(b) => {
                push_str(&mut out, ",\"blame\":\"");
                push_str(&mut out, b.as_str());
                push_str(&mut out, "\"");
            },
            None => {},
        }
        push_str(&mut out, "}");
        assert(out@ =~= self.json());
        out
    }
}

/// Serialize a slice of diagnostics to a canonical JSON array, preserving order.
pub fn diagnostics_to_json(diagnostics: &[Diagnostic]) -> (s: String)
    ensures
        s@ == "["@ + json_array_body(diagnostics@) + "]"@,
{
    let mut out = String::new();
    push_str(&mut out, "[");
    let n = diagnostics.len();
    let mut i: usize = 0;
    assert(diagnostics@.take(0) =~= Seq::<Diagnostic>::empty());
    while i < n
        invariant
            n == diagnostics@.len(),
            i <= n,
            out@ == "["@ + json_array_body(diagnostics@.take(i as int)),
        decreases n - i,
    {
        let ghost before = out@;
        if i > 0 {
            push_str(&mut out, ",");
        }
        let j = diagnostics[i].to_json();
        push_str(&mut out, j.as_str());
        assert(diagnostics@.take(i + 1).drop_last() =~= diagnostics@.take(i as int));
        assert(diagnostics@.take(i + 1).last() == diagnostics@[i as int]);
        if i == 0 {
            assert(diagnostics@.take(1).len() == 1);
            assert(out@ =~= "["@ + json_array_body(diagnostics@.take(i + 1)));
        } else {
            assert(out@ =~= "["@ + json_array_body(diagnostics@.take(i + 1)));
        }
        i = i + 1;
    }
    assert(diagnostics@.take(n as int) =~= diagnostics@);
    push_str(&mut out, "]");
    out
}

// --- Decoding an escaped text -------------------------------------------------

/// The value of a lowercase hexadecimal digit (zero for any other character).
pub open spec fn hex_value(c: char) -> int {
    let n = c as u32;
    if 0x30 <= n && n <= 0x39 {
        n - 0x30
    } else if 0x61 <= n && n <= 0x66 {
        n - 0x61 + 10
    } else {
        0
    }
}

/// How a JSON reader decodes a string body: `\"`, `\\`, `\n`, `\r`, `\t` and
/// `\u` with four hexadecimal digits stand for one character; any other
/// character stands for itself.
pub open spec fn json_unescape(t: Seq<char>) -> Seq<char>
    decreases t.len(),
{
    if t.len() == 0 {
        Seq::empty()
    } else if t[0] == '\\' && t.len() >= 2 {
        let e = t[1];
        if e == 'u' && t.len() >= 6 {
            let v = hex_value(t[2]) * 4096 + hex_value(t[3]) * 256 + hex_value(t[4]) * 16 + hex_value(t[5]);
            seq![(v as u32) as char] + json_unescape(t.subrange(6, t.len() as int))
        } else {
            let d = if e == 'n' {
                '\n'
            } else if e == 'r' {
                '\r'
            } else if e == 't' {
                '\t'
            } else {
                e
            };
            seq![d] + json_unescape(t.subrange(2, t.len() as int))
        }
    } else {
        seq![t[0]] + json_unescape(t.subrange(1, t.len() as int))
    }
}

/// Every character is ASCII.
pub open spec fn all_ascii(s: Seq<char>) -> bool {
    forall|i: int| 0 <= i < s.len() ==> (#[trigger] s[i] as u32) < 0x80
}

/// Every character is ASCII and none is a control character.
pub open spec fn printable_ascii(s: Seq<char>) -> bool {
    forall|i: int| 0 <= i < s.len() ==> 0x20 <= (#[trigger] s[i] as u32) && (s[i] as u32) < 0x80
}

proof fn lemma_hex_char(d: nat)
    requires
        d < 16,
    ensures
        hex_value(hex_char(d)) == d,
        0x30 <= (hex_char(d) as u32) < 0x80,
{
}

proof fn lemma_escape_first(s: Seq<char>)
    requires
        s.len() > 0,
    ensures
        escape(s) == escape_char(s[0]) + escape(s.drop_first()),
    decreases s.len(),
{
    if s.len() == 1 {
        assert(s.drop_last() =~= Seq::<char>::empty());
        assert(s.drop_first() =~= Seq::<char>::empty());
        assert(escape(s) =~= escape_char(s[0]) + escape(s.drop_first()));
    } else {
        lemma_escape_first(s.drop_last());
        assert(s.drop_last().drop_first() =~= s.drop_first().drop_last());
        assert(s.drop_last()[0] == s[0]);
        assert(s.drop_first().last() == s.last());
        assert(escape(s) =~= escape_char(s[0]) + escape(s.drop_first()));
    }
}

proof fn lemma_unescape_char(c: char, rest: Seq<char>)
    requires
        (c as u32) < 0x80,
    ensures
        json_unescape(escape_char(c) + rest) == seq![c] + json_unescape(rest),
        printable_ascii(escape_char(c)),
{
    let t = escape_char(c) + rest;
    let n = c as u32;
    if c == '"' || c == '\\' || c == '\n' || c == '\r' || c == '\t' {
        assert(t.subrange(2, t.len() as int) =~= rest);
    } else if n < 0x20 {
        lemma_hex_char((n / 16) as nat);
        lemma_hex_char((n % 16) as nat);
        assert(t.subrange(6, t.len() as int) =~= rest);
        assert(hex_value('0') == 0);
        assert(((n / 16) * 16 + n % 16) as u32 == n);
        assert((n as u32) as char == c);
    } else {
        assert(t.subrange(1, t.len() as int) =~= rest);
    }
}

/// JSON escaping is safe and faithful: the escape of an ASCII text is
/// printable ASCII (no control character survives), and a JSON reader
/// decodes it back to exactly that text.
pub proof fn law_escape_round_trips(s: Seq<char>)
    requires
        all_ascii(s),
    ensures
        printable_ascii(escape(s)),
        json_unescape(escape(s)) == s,
    decreases s.len(),
{
    if s.len() == 0 {
        assert(json_unescape(escape(s)) =~= s);
    } else {
        lemma_escape_first(s);
        let rest = s.drop_first();
        assert(all_ascii(rest)) by {
            assert forall|i: int| 0 <= i < rest.len() implies (#[trigger] rest[i] as u32) < 0x80 by {
                assert(rest[i] == s[i + 1]);
            }
        }
        assert((s[0] as u32) < 0x80);
        law_escape_round_trips(rest);
        lemma_unescape_char(s[0], escape(rest));
        assert(seq![s[0]] + rest =~= s);
        let e = escape_char(s[0]);
        assert forall|i: int| 0 <= i < escape(s).len() implies 0x20 <= (#[trigger] escape(s)[i] as u32) && (escape(s)[i]
            as u32) < 0x80 by {
            if i < e.len() {
                assert(escape(s)[i] == e[i]);
            } else {
                assert(escape(s)[i] == escape(rest)[i - e.len()]);
            }
        }
    }
}

} // verus!
