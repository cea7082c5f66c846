//! The lexer: source text to tokens, each carrying its exact byte span.
//!
//! Whitespace and `//` line comments separate tokens. Integer literals are
//! decimal and must fit in a signed 64-bit integer; text literals are
//! double-quoted with the escapes `\n`, `\t`, `\r`, `\0`, `\"` and `\\`.

use vstd::prelude::*;
use crate::diagnostic::{errors_as, lemma_errors_push, Diagnostic};
use crate::span::Span;
use crate::text::push_char;
use crate::token::{keyword_of, Keyword, Token, TokenKind};

verus! {

/// The number of bytes UTF-8 uses for a character.
pub open spec fn char_width(c: char) -> nat {
    if (c as u32) < 0x80 { 1 }
    else if (c as u32) < 0x800 { 2 }
    else if (c as u32) < 0x10000 { 3 }
    else { 4 }
}

/// The number of bytes UTF-8 uses for a character sequence.
pub open spec fn byte_len(s: Seq<char>) -> nat
    decreases s.len(),
{
    if s.len() == 0 { 0 } else { byte_len(s.drop_last()) + char_width(s.last()) }
}

/// The byte offset of the `i`-th character of `s`.
pub open spec fn offset(s: Seq<char>, i: int) -> nat {
    byte_len(s.take(i))
}

proof fn lemma_offset_step(s: Seq<char>, i: int)
    requires
        0 <= i < s.len(),
    ensures
        offset(s, i + 1) == offset(s, i) + char_width(s[i]),
{
    assert(s.take(i + 1).drop_last() =~= s.take(i));
}

proof fn lemma_offset_mono(s: Seq<char>, i: int, j: int)
    requires
        0 <= i <= j <= s.len(),
    ensures
        offset(s, i) <= offset(s, j),
    decreases j - i,
{
    if i < j {
        lemma_offset_step(s, j - 1);
        lemma_offset_mono(s, i, j - 1);
    }
}

proof fn lemma_offset_full(s: Seq<char>)
    ensures
        offset(s, s.len() as int) == byte_len(s),
{
    assert(s.take(s.len() as int) =~= s);
}

/// The result of lexing: the token stream (always ending in `Eof`) and any
/// lexical diagnostics.
#[derive(Debug, PartialEq, Eq)]
pub struct LexResult {
    pub tokens: Vec<Token>,
    pub diagnostics: Vec<Diagnostic>,
}

/// The well-formedness of a token stream over a source of `total` bytes: it is
/// non-empty, ends in exactly one `Eof` (a zero-width span at `total`), and its
/// spans are well formed, in order, and within the source.
pub open spec fn tokens_wf(toks: Seq<Token>, total: nat) -> bool {
    &&& toks.len() > 0
    &&& toks.last().kind is Eof
    &&& toks.last().span.start == total
    &&& toks.last().span.end == total
    &&& forall|k: int| 0 <= k < toks.len() - 1 ==> !(#[trigger] toks[k].kind is Eof)
    &&& forall|k: int| 0 <= k < toks.len() ==> #[trigger] toks[k].span.start <= toks[k].span.end
        && toks[k].span.end <= total
    &&& forall|k: int, j: int| 0 <= k < j < toks.len() ==> #[trigger] toks[k].span.end
        <= #[trigger] toks[j].span.start
}

/// What a token stands for: a kind carrying no text, an identifier spelled
/// by a word, or a text literal with its decoded content.
pub enum Lexed {
    Plain(TokenKind),
    Word(Seq<char>),
    Text(Seq<char>),
}

/// `t` is the token `l` over `span`.
pub open spec fn token_is(t: Token, l: Lexed, span: Span) -> bool {
    &&& t.span == span
    &&& match l {
        Lexed::Plain(k) => t.kind == k,
        Lexed::Word(w) => t.kind matches TokenKind::Ident(s) && s@ == w,
        Lexed::Text(x) => t.kind matches TokenKind::Text(s) && s@ == x,
    }
}

/// A lexical diagnostic: code, span, message.
pub type LexDiag = (Seq<char>, Span, Seq<char>);

pub open spec fn is_space_c(c: char) -> bool {
    c == ' ' || c == '\t' || c == '\n' || c == '\r'
}

pub open spec fn is_digit_c(c: char) -> bool {
    '0' <= c && c <= '9'
}

pub open spec fn is_ident_start_c(c: char) -> bool {
    ('a' <= c && c <= 'z') || ('A' <= c && c <= 'Z') || c == '_'
}

pub open spec fn is_ident_continue_c(c: char) -> bool {
    is_ident_start_c(c) || is_digit_c(c)
}

/// Where a line comment that reaches `j` ends: at the next newline (not
/// consumed), or at the end.
pub open spec fn comment_end(src: Seq<char>, j: int) -> int
    decreases src.len() - j,
{
    if j < 0 || j >= src.len() || src[j] == '\n' {
        j
    } else {
        comment_end(src, j + 1)
    }
}

/// Where a run of digits from `j` ends.
pub open spec fn digits_end(src: Seq<char>, j: int) -> int
    decreases src.len() - j,
{
    if 0 <= j < src.len() && is_digit_c(src[j]) {
        digits_end(src, j + 1)
    } else {
        j
    }
}

/// Where a run of identifier characters from `j` ends.
pub open spec fn word_end(src: Seq<char>, j: int) -> int
    decreases src.len() - j,
{
    if 0 <= j < src.len() && is_ident_continue_c(src[j]) {
        word_end(src, j + 1)
    } else {
        j
    }
}

/// The decimal value of the digits `src[i..j]`.
pub open spec fn digits_value(src: Seq<char>, i: int, j: int) -> int
    decreases j - i,
{
    if j <= i {
        0
    } else {
        digits_value(src, i, j - 1) * 10 + (src[j - 1] as int - '0' as int)
    }
}

/// The character an escape `\e` stands for.
pub open spec fn escape_of(e: char) -> Option<char> {
    if e == 'n' {
        Some('\n')
    } else if e == 't' {
        Some('\t')
    } else if e == 'r' {
        Some('\r')
    } else if e == '0' {
        Some('\0')
    } else if e == '"' {
        Some('"')
    } else if e == '\\' {
        Some('\\')
    } else {
        None
    }
}

/// The span of the characters `src[i..j]`.
pub open spec fn char_span(src: Seq<char>, i: int, j: int) -> Span {
    Span { start: offset(src, i) as usize, end: offset(src, j) as usize }
}

/// The rest of a text literal from `j` (after its opening quote): where it
/// ends, whether its closing quote was found, its decoded content, and the
/// unknown escapes it reports.
pub open spec fn text_scan(src: Seq<char>, j: int) -> (int, bool, Seq<char>, Seq<LexDiag>)
    decreases src.len() - j,
{
    if j < 0 || j >= src.len() {
        (j, false, Seq::empty(), Seq::empty())
    } else if src[j] == '"' {
        (j + 1, true, Seq::empty(), Seq::empty())
    } else if src[j] == '\\' {
        if j + 1 >= src.len() {
            (j + 1, false, Seq::empty(), Seq::empty())
        } else {
            let (end, closed, t, d) = text_scan(src, j + 2);
            match escape_of(src[j + 1]) {
                Some(ch) => (end, closed, seq![ch] + t, d),
                None => (
                    end,
                    closed,
                    t,
                    seq![("L0004"@, char_span(src, j, j + 2), "unknown escape sequence in text literal"@)] + d,
                ),
            }
        }
    } else {
        let (end, closed, t, d) = text_scan(src, j + 1);
        (end, closed, seq![src[j]] + t, d)
    }
}

/// A two-character operator.
pub open spec fn two_char_op(c: char, next: char) -> Option<TokenKind> {
    if c == '=' && next == '=' {
        Some(TokenKind::EqEq)
    } else if c == '!' && next == '=' {
        Some(TokenKind::NotEq)
    } else if c == '<' && next == '=' {
        Some(TokenKind::LtEq)
    } else if c == '>' && next == '=' {
        Some(TokenKind::GtEq)
    } else if c == '&' && next == '&' {
        Some(TokenKind::AmpAmp)
    } else if c == '|' && next == '|' {
        Some(TokenKind::PipePipe)
    } else if c == '-' && next == '>' {
        Some(TokenKind::Arrow)
    } else if c == '=' && next == '>' {
        Some(TokenKind::FatArrow)
    } else {
        None
    }
}

/// A one-character operator or delimiter.
pub open spec fn one_char_op(c: char) -> Option<TokenKind> {
    if c == '+' {
        Some(TokenKind::Plus)
    } else if c == '-' {
        Some(TokenKind::Minus)
    } else if c == '*' {
        Some(TokenKind::Star)
    } else if c == '/' {
        Some(TokenKind::Slash)
    } else if c == '%' {
        Some(TokenKind::Percent)
    } else if c == '<' {
        Some(TokenKind::Lt)
    } else if c == '>' {
        Some(TokenKind::Gt)
    } else if c == '=' {
        Some(TokenKind::Eq)
    } else if c == '!' {
        Some(TokenKind::Bang)
    } else if c == '|' {
        Some(TokenKind::Pipe)
    } else if c == '.' {
        Some(TokenKind::Dot)
    } else if c == '(' {
        Some(TokenKind::LParen)
    } else if c == ')' {
        Some(TokenKind::RParen)
    } else if c == '{' {
        Some(TokenKind::LBrace)
    } else if c == '}' {
        Some(TokenKind::RBrace)
    } else if c == ',' {
        Some(TokenKind::Comma)
    } else if c == ':' {
        Some(TokenKind::Colon)
    } else if c == ';' {
        Some(TokenKind::Semicolon)
    } else {
        None
    }
}

/// One step of lexing at `i`: where the next step starts, the token read
/// (none for whitespace, a comment or an error), and what it reports.
pub open spec fn lex_step(src: Seq<char>, i: int) -> (int, Option<Lexed>, Seq<LexDiag>) {
    let c = src[i];
    if is_space_c(c) {
        (i + 1, None, Seq::empty())
    } else if c == '/' && i + 1 < src.len() && src[i + 1] == '/' {
        (comment_end(src, i + 2), None, Seq::empty())
    } else if is_digit_c(c) {
        let j = digits_end(src, i + 1);
        if digits_value(src, i, j) > i64::MAX {
            (j, None, seq![("L0002"@, char_span(src, i, j), "integer literal does not fit in a 64-bit `Int`"@)])
        } else {
            (j, Some(Lexed::Plain(TokenKind::Int(digits_value(src, i, j) as i64))), Seq::empty())
        }
    } else if is_ident_start_c(c) {
        let j = word_end(src, i + 1);
        let w = src.subrange(i, j);
        (
            j,
            Some(
                match keyword_of(w) {
                    Some(k) => Lexed::Plain(TokenKind::Keyword(k)),
                    None => Lexed::Word(w),
                },
            ),
            Seq::empty(),
        )
    } else if c == '"' {
        let (j, closed, t, d) = text_scan(src, i + 1);
        if closed {
            (j, Some(Lexed::Text(t)), d)
        } else {
            (j, None, d + seq![("L0003"@, char_span(src, i, j), "unterminated text literal"@)])
        }
    } else if i + 1 < src.len() && two_char_op(c, src[i + 1]) is Some {
        (i + 2, Some(Lexed::Plain(two_char_op(c, src[i + 1])->Some_0)), Seq::empty())
    } else {
        match one_char_op(c) {
            Some(k) => (i + 1, Some(Lexed::Plain(k)), Seq::empty()),
            None => (i + 1, None, seq![("L0001"@, char_span(src, i, i + 1), "unexpected character"@)]),
        }
    }
}

/// The tokens (with their spans) and diagnostics of lexing `src` from `i`.
pub open spec fn lex_from(src: Seq<char>, i: int) -> (Seq<(Lexed, Span)>, Seq<LexDiag>)
    decreases src.len() - i,
{
    if i < 0 || i >= src.len() {
        (Seq::empty(), Seq::empty())
    } else {
        let (j, t, d) = lex_step(src, i);
        if j <= i || j > src.len() {
            (Seq::empty(), d)
        } else {
            let (ts, ds) = lex_from(src, j);
            (
                match t {
                    Some(l) => seq![(l, char_span(src, i, j))],
                    None => Seq::empty(),
                } + ts,
                d + ds,
            )
        }
    }
}

fn width(c: char) -> (w: usize)
    ensures
        w == char_width(c),
{
    if (c as u32) < 0x80 { 1 }
    else if (c as u32) < 0x800 { 2 }
    else if (c as u32) < 0x10000 { 3 }
    else { 4 }
}

fn is_digit(c: char) -> (b: bool)
    ensures
        b == ('0' <= c && c <= '9'),
{
    '0' <= c && c <= '9'
}

fn is_ident_start(c: char) -> (r: bool)
    ensures
        r == is_ident_start_c(c),
{
    ('a' <= c && c <= 'z') || ('A' <= c && c <= 'Z') || c == '_'
}

fn is_ident_continue(c: char) -> (r: bool)
    ensures
        r == is_ident_continue_c(c),
{
    is_ident_start(c) || is_digit(c)
}

fn digit_value(c: char) -> (d: i64)
    requires
        '0' <= c && c <= '9',
    ensures
        0 <= d <= 9,
        d == c as int - '0' as int,
{
    if c == '0' { 0 } else if c == '1' { 1 } else if c == '2' { 2 } else if c == '3' { 3 }
    else if c == '4' { 4 } else if c == '5' { 5 } else if c == '6' { 6 } else if c == '7' { 7 }
    else if c == '8' { 8 } else { 9 }
}

/// A cursor over the characters of a source, tracking the byte offset.
struct Cursor {
    chars: Vec<char>,
    i: usize,
    b: usize,
}

impl Cursor {
    spec fn inv(&self, src: Seq<char>) -> bool {
        &&& self.chars@ == src
        &&& self.i <= src.len()
        &&& self.b == offset(src, self.i as int)
        &&& byte_len(src) <= usize::MAX
    }

    fn at_end(&self) -> (r: bool)
        requires
            self.i <= self.chars@.len(),
        ensures
            r == (self.i == self.chars@.len()),
    {
        self.i == self.chars.len()
    }

    fn peek_at(&self, k: usize) -> (r: Option<char>)
        ensures
            self.i + k < self.chars@.len() ==> r == Some(self.chars@[self.i + k]),
            self.i + k >= self.chars@.len() ==> r is None,
    {
        if k < self.chars.len() && self.i < self.chars.len() - k {
            Some(self.chars[self.i + k])
        } else {
            None
        }
    }

    fn bump(&mut self, Ghost(src): Ghost<Seq<char>>)
        requires
            old(self).inv(src),
            old(self).i < src.len(),
        ensures
            final(self).inv(src),
            final(self).i == old(self).i + 1,
            final(self).b > old(self).b,
    {
        proof {
            lemma_offset_step(src, self.i as int);
            lemma_offset_mono(src, self.i + 1, src.len() as int);
            lemma_offset_full(src);
        }
        assert(self.i < self.chars.len());
        let w = width(self.chars[self.i]);
        self.b = self.b + w;
        self.i = self.i + 1;
    }
}

fn lex_diag(code: &str, start: usize, end: usize, msg: &str) -> (d: Diagnostic)
    requires
        start <= end,
    ensures
        d@ == (code@, Span { start, end }, msg@),
        d.severity == crate::diagnostic::Severity::Error,
        d.blame is None,
{
    Diagnostic::error(code, Span::new(start, end), msg)
}

/// A token kind is what `l` stands for.
pub open spec fn kind_is_lexed(k: TokenKind, l: Lexed) -> bool {
    match l {
        Lexed::Plain(p) => k == p,
        Lexed::Word(w) => k matches TokenKind::Ident(s) && s@ == w,
        Lexed::Text(x) => k matches TokenKind::Text(s) && s@ == x,
    }
}

impl Cursor {
    /// Skip the rest of a line comment, up to its newline.
    fn skip_comment(&mut self, Ghost(src): Ghost<Seq<char>>)
        requires
            old(self).inv(src),
        ensures
            final(self).inv(src),
            final(self).i == comment_end(src, old(self).i as int),
            final(self).i >= old(self).i,
    {
        let ghost i0 = self.i as int;
        while !self.at_end() && self.chars[self.i] != '\n'
            invariant
                self.inv(src),
                i0 <= self.i,
                comment_end(src, self.i as int) == comment_end(src, i0),
            decreases src.len() - self.i,
        {
            self.bump(Ghost(src));
        }
    }

    /// Read the rest of a run of digits; its value, unless it exceeds
    /// `i64::MAX`.
    fn scan_digits(&mut self, Ghost(src): Ghost<Seq<char>>) -> (r: Option<i64>)
        requires
            old(self).inv(src),
            old(self).i < src.len(),
            is_digit_c(src[old(self).i as int]),
        ensures
            final(self).inv(src),
            final(self).i == digits_end(src, old(self).i + 1),
            final(self).i > old(self).i,
            digits_value(src, old(self).i as int, final(self).i as int) > i64::MAX ==> r is None,
            digits_value(src, old(self).i as int, final(self).i as int) <= i64::MAX ==> r == Some(
                digits_value(src, old(self).i as int, final(self).i as int) as i64,
            ),
    {
        let ghost i0 = self.i as int;
        let mut value: i64 = digit_value(self.chars[self.i]);
        let mut overflow = false;
        self.bump(Ghost(src));
        assert(digits_value(src, i0, i0 + 1) == digits_value(src, i0, i0) * 10 + (src[i0] as int - '0' as int));
        while !self.at_end() && is_digit(self.chars[self.i])
            invariant
                self.inv(src),
                i0 < self.i,
                digits_end(src, self.i as int) == digits_end(src, i0 + 1),
                value >= 0,
                !overflow ==> value == digits_value(src, i0, self.i as int),
                overflow ==> digits_value(src, i0, self.i as int) > i64::MAX,
            decreases src.len() - self.i,
        {
            let ghost j = self.i as int;
            let ghost dv = digits_value(src, i0, j);
            let d = digit_value(self.chars[self.i]);
            assert(digits_value(src, i0, j + 1) == dv * 10 + d);
            if !overflow && value <= (i64::MAX - d) / 10 {
                assert(value * 10 + d <= i64::MAX) by (nonlinear_arith)
                    requires
                        value <= (i64::MAX - d) / 10,
                        0 <= d <= 9,
                        value >= 0,
                ;
                value = value * 10 + d;
            } else {
                if !overflow {
                    assert(dv * 10 + d > i64::MAX) by (nonlinear_arith)
                        requires
                            dv > (i64::MAX - d) / 10,
                            0 <= d <= 9,
                    ;
                } else {
                    assert(dv * 10 + d > i64::MAX) by (nonlinear_arith)
                        requires
                            dv > i64::MAX,
                            0 <= d <= 9,
                    ;
                }
                overflow = true;
            }
            self.bump(Ghost(src));
        }
        if overflow {
            None
        } else {
            Some(value)
        }
    }

    /// Read the rest of a word.
    fn scan_word(&mut self, Ghost(src): Ghost<Seq<char>>) -> (r: String)
        requires
            old(self).inv(src),
            old(self).i < src.len(),
        ensures
            final(self).inv(src),
            final(self).i == word_end(src, old(self).i + 1),
            final(self).i > old(self).i,
            r@ == src.subrange(old(self).i as int, final(self).i as int),
    {
        let ghost i0 = self.i as int;
        let mut word = String::new();
        push_char(&mut word, self.chars[self.i]);
        self.bump(Ghost(src));
        assert(word@ =~= src.subrange(i0, i0 + 1));
        while !self.at_end() && is_ident_continue(self.chars[self.i])
            invariant
                self.inv(src),
                0 <= i0 < self.i,
                word_end(src, self.i as int) == word_end(src, i0 + 1),
                word@ == src.subrange(i0, self.i as int),
            decreases src.len() - self.i,
        {
            let ghost j = self.i as int;
            let ghost w0 = word@;
            let ch = self.chars[self.i];
            push_char(&mut word, ch);
            self.bump(Ghost(src));
            proof {
                assert(0 <= i0 < j);
                assert(j + 1 <= src.len());
                assert(ch == src[j]);
                assert(w0 == src.subrange(i0, j));
                assert(word@ =~= src.subrange(i0, j + 1));
            }
        }
        word
    }

    /// Read the rest of a text literal after its opening quote, reporting
    /// unknown escapes.
    fn scan_text(&mut self, Ghost(src): Ghost<Seq<char>>, diagnostics: &mut Vec<Diagnostic>, Ghost(ds): Ghost<Seq<LexDiag>>) -> (r: (bool, String))
        requires
            old(self).inv(src),
            errors_as(old(diagnostics)@, ds),
        ensures
            final(self).inv(src),
            final(self).i == text_scan(src, old(self).i as int).0,
            final(self).i >= old(self).i,
            r.0 == text_scan(src, old(self).i as int).1,
            r.1@ == text_scan(src, old(self).i as int).2,
            errors_as(final(diagnostics)@, ds + text_scan(src, old(self).i as int).3),
    {
        let ghost i0 = self.i as int;
        let ghost full = text_scan(src, i0);
        let mut text = String::new();
        let mut closed = false;
        let ghost mut dacc: Seq<LexDiag> = Seq::empty();
        assert(text@ + text_scan(src, i0).2 =~= full.2);
        assert(ds + dacc + text_scan(src, i0).3 =~= ds + full.3);
        while !closed && !self.at_end()
            invariant
                self.inv(src),
                i0 <= self.i,
                full == text_scan(src, i0),
                errors_as(diagnostics@, ds + dacc),
                !closed ==> {
                    &&& text@ + text_scan(src, self.i as int).2 == full.2
                    &&& dacc + text_scan(src, self.i as int).3 == full.3
                    &&& text_scan(src, self.i as int).0 == full.0
                    &&& text_scan(src, self.i as int).1 == full.1
                },
                closed ==> text@ == full.2 && dacc == full.3 && self.i == full.0 && full.1,
            decreases src.len() - self.i, if closed { 0int } else { 1int },
        {
            let ghost j = self.i as int;
            let d = self.chars[self.i];
            if d == '"' {
                self.bump(Ghost(src));
                closed = true;
                assert(text@ + Seq::<char>::empty() =~= text@);
                assert(dacc + Seq::<LexDiag>::empty() =~= dacc);
            } else if d == '\\' {
                let esc_start = self.b;
                self.bump(Ghost(src));
                if self.at_end() {
                    assert(text@ + Seq::<char>::empty() =~= text@);
                } else {
                    let e = self.chars[self.i];
                    self.bump(Ghost(src));
                    let ghost rest = text_scan(src, j + 2);
                    if e == 'n' || e == 't' || e == 'r' || e == '0' || e == '"' || e == '\\' {
                        let ch = if e == 'n' {
                            '\n'
                        } else if e == 't' {
                            '\t'
                        } else if e == 'r' {
                            '\r'
                        } else if e == '0' {
                            '\0'
                        } else if e == '"' {
                            '"'
                        } else {
                            '\\'
                        };
                        let ghost before = text@;
                        push_char(&mut text, ch);
                        assert(escape_of(e) == Some(ch));
                        assert(text@ + rest.2 =~= before + (seq![ch] + rest.2));
                    } else {
                        let dg = lex_diag("L0004", esc_start, self.b, "unknown escape sequence in text literal");
                        proof {
                            lemma_errors_push(diagnostics@, ds + dacc, dg);
                        }
                        diagnostics.push(dg);
                        proof {
                            let item = ("L0004"@, char_span(src, j, j + 2), "unknown escape sequence in text literal"@);
                            assert(dg@ == item);
                            assert((ds + dacc).push(dg@) =~= ds + dacc.push(item));
                            assert(dacc.push(item) + rest.3 =~= dacc + (seq![item] + rest.3));
                            dacc = dacc.push(item);
                        }
                    }
                }
            } else {
                let ghost before = text@;
                push_char(&mut text, d);
                self.bump(Ghost(src));
                assert(text@ + text_scan(src, j + 1).2 =~= before + (seq![d] + text_scan(src, j + 1).2));
            }
        }
        if !closed {
            assert(text_scan(src, self.i as int).2 =~= Seq::<char>::empty());
            assert(text@ + Seq::<char>::empty() =~= text@);
            assert(dacc + Seq::<LexDiag>::empty() =~= dacc);
        }
        (closed, text)
    }
}

/// Read one step of the source at the cursor: the token read, if any, with
/// what the step reports appended.
fn lex_token(cur: &mut Cursor, Ghost(src): Ghost<Seq<char>>, diagnostics: &mut Vec<Diagnostic>, Ghost(ds): Ghost<Seq<LexDiag>>) -> (r: Option<TokenKind>)
    requires
        old(cur).inv(src),
        old(cur).i < src.len(),
        errors_as(old(diagnostics)@, ds),
    ensures
        final(cur).inv(src),
        final(cur).i == lex_step(src, old(cur).i as int).0,
        final(cur).i > old(cur).i,
        errors_as(final(diagnostics)@, ds + lex_step(src, old(cur).i as int).2),
        match (r, lex_step(src, old(cur).i as int).1) {
            (Some(k), Some(l)) => kind_is_lexed(k, l) && !(k is Eof),
            (None, None) => true,
            _ => false,
        },
{
    let ghost i0 = cur.i as int;
    let c = cur.chars[cur.i];
    let start = cur.b;
    assert(ds + Seq::<LexDiag>::empty() =~= ds);
    if c == ' ' || c == '\t' || c == '\n' || c == '\r' {
        cur.bump(Ghost(src));
        return None;
    }
    if c == '/' && cur.peek_at(1) == Some('/') {
        cur.bump(Ghost(src));
        cur.bump(Ghost(src));
        cur.skip_comment(Ghost(src));
        return None;
    }
    if is_digit(c) {
        let v = cur.scan_digits(Ghost(src));
        return match v {
            Some(value) => Some(TokenKind::Int(value)),
            None => {
                proof {
                    lemma_offset_mono(src, i0, cur.i as int);
                }
                let dg = lex_diag("L0002", start, cur.b, "integer literal does not fit in a 64-bit `Int`");
                proof {
                    lemma_errors_push(diagnostics@, ds, dg);
                }
                diagnostics.push(dg);
                None
            },
        };
    }
    if is_ident_start(c) {
        let word = cur.scan_word(Ghost(src));
        return match Keyword::lookup(word.as_str()) {
            Some(k) => Some(TokenKind::Keyword(k)),
            None => Some(TokenKind::Ident(word)),
        };
    }
    if c == '"' {
        cur.bump(Ghost(src));
        let (closed, text) = cur.scan_text(Ghost(src), diagnostics, Ghost(ds));
        if closed {
            return Some(TokenKind::Text(text));
        }
        proof {
            lemma_offset_mono(src, i0, cur.i as int);
        }
        let ghost dmid = ds + text_scan(src, i0 + 1).3;
        let dg = lex_diag("L0003", start, cur.b, "unterminated text literal");
        proof {
            lemma_errors_push(diagnostics@, dmid, dg);
            assert(dmid.push(dg@) =~= ds + (text_scan(src, i0 + 1).3 + seq![dg@]));
        }
        diagnostics.push(dg);
        return None;
    }
    let next = cur.peek_at(1);
    let two: Option<TokenKind> =
        if c == '=' && next == Some('=') { Some(TokenKind::EqEq) }
        else if c == '!' && next == Some('=') { Some(TokenKind::NotEq) }
        else if c == '<' && next == Some('=') { Some(TokenKind::LtEq) }
        else if c == '>' && next == Some('=') { Some(TokenKind::GtEq) }
        else if c == '&' && next == Some('&') { Some(TokenKind::AmpAmp) }
        else if c == '|' && next == Some('|') { Some(TokenKind::PipePipe) }
        else if c == '-' && next == Some('>') { Some(TokenKind::Arrow) }
        else if c == '=' && next == Some('>') { Some(TokenKind::FatArrow) }
        else { None };
    match two {
        Some(k) => {
            cur.bump(Ghost(src));
            cur.bump(Ghost(src));
            return Some(k);
        },
        None => {},
    }
    let one: Option<TokenKind> =
        if c == '+' { Some(TokenKind::Plus) }
        else if c == '-' { Some(TokenKind::Minus) }
        else if c == '*' { Some(TokenKind::Star) }
        else if c == '/' { Some(TokenKind::Slash) }
        else if c == '%' { Some(TokenKind::Percent) }
        else if c == '<' { Some(TokenKind::Lt) }
        else if c == '>' { Some(TokenKind::Gt) }
        else if c == '=' { Some(TokenKind::Eq) }
        else if c == '!' { Some(TokenKind::Bang) }
        else if c == '|' { Some(TokenKind::Pipe) }
        else if c == '.' { Some(TokenKind::Dot) }
        else if c == '(' { Some(TokenKind::LParen) }
        else if c == ')' { Some(TokenKind::RParen) }
        else if c == '{' { Some(TokenKind::LBrace) }
        else if c == '}' { Some(TokenKind::RBrace) }
        else if c == ',' { Some(TokenKind::Comma) }
        else if c == ':' { Some(TokenKind::Colon) }
        else if c == ';' { Some(TokenKind::Semicolon) }
        else { None };
    cur.bump(Ghost(src));
    match one {
        Some(k) => Some(k),
        None => {
            let dg = lex_diag("L0001", start, cur.b, "unexpected character");
            proof {
                lemma_errors_push(diagnostics@, ds, dg);
            }
            diagnostics.push(dg);
            None
        },
    }
}

/// The tokens lexed from a source: those of `lex_from` from the start, then
/// `Eof`.
pub open spec fn lexed_as(toks: Seq<Token>, src: Seq<char>) -> bool {
    let ls = lex_from(src, 0).0;
    &&& toks.len() == ls.len() + 1
    &&& forall|k: int| 0 <= k < ls.len() ==> #[trigger] token_is(toks[k], ls[k].0, ls[k].1)
    &&& toks.last().kind is Eof
}

/// Lex a whole source into tokens. Lexing never stops early: an unexpected
/// character, a malformed literal or an unterminated text is reported and
/// skipped, and the token stream always ends in `Eof`.
pub fn lex(source: &str) -> (r: LexResult)
    requires
        byte_len(source@) + 2 <= usize::MAX,
    ensures
        tokens_wf(r.tokens@, byte_len(source@)),
        r.tokens@.len() <= byte_len(source@) + 1,
        lexed_as(r.tokens@, source@),
        errors_as(r.diagnostics@, lex_from(source@, 0).1),
{
    let ghost src = source@;
    let n = source.unicode_len();
    let mut chars: Vec<char> = Vec::new();
    let mut j: usize = 0;
    while j < n
        invariant
            n == src.len(),
            src == source@,
            j <= n,
            chars@ == src.take(j as int),
        decreases n - j,
    {
        chars.push(source.get_char(j));
        assert(src.take(j + 1) =~= src.take(j as int).push(src[j as int]));
        j = j + 1;
    }
    assert(src.take(n as int) =~= src);
    assert(src.take(0) =~= Seq::<char>::empty());
    let mut cur = Cursor { chars, i: 0, b: 0 };
    let mut tokens: Vec<Token> = Vec::new();
    let mut diagnostics: Vec<Diagnostic> = Vec::new();
    let ghost full = lex_from(src, 0);
    let ghost mut acc: Seq<(Lexed, Span)> = Seq::empty();
    let ghost mut dacc: Seq<LexDiag> = Seq::empty();
    assert(acc + lex_from(src, 0).0 =~= full.0);
    assert(dacc + lex_from(src, 0).1 =~= full.1);
    proof { lemma_offset_full(src); }
    while !cur.at_end()
        invariant
            cur.inv(src),
            full == lex_from(src, 0),
            acc + lex_from(src, cur.i as int).0 == full.0,
            dacc + lex_from(src, cur.i as int).1 == full.1,
            tokens@.len() == acc.len(),
            forall|k: int| 0 <= k < acc.len() ==> #[trigger] token_is(tokens@[k], acc[k].0, acc[k].1),
            errors_as(diagnostics@, dacc),
            tokens@.len() <= cur.b,
            forall|k: int| 0 <= k < tokens@.len() ==> !(#[trigger] tokens@[k].kind is Eof),
            forall|k: int| #![trigger tokens@[k]] 0 <= k < tokens@.len() ==> tokens@[k].span.start
                <= tokens@[k].span.end && tokens@[k].span.end <= cur.b,
            forall|k: int, m: int| 0 <= k < m < tokens@.len() ==> #[trigger] tokens@[k].span.end
                <= #[trigger] tokens@[m].span.start,
        decreases src.len() - cur.i,
    {
        proof {
            lemma_offset_mono(src, cur.i as int, src.len() as int);
            lemma_offset_full(src);
        }
        let start = cur.b;
        let ghost i0 = cur.i as int;
        let ghost toks_before = tokens@;
        let ghost diags_before = diagnostics@;
        let ghost step = lex_step(src, i0);
        assert(forall|k: int| #![trigger toks_before[k]] 0 <= k < toks_before.len() ==> toks_before[k].span.end <= start);
        let kind = lex_token(&mut cur, Ghost(src), &mut diagnostics, Ghost(dacc));
        let ghost i1 = cur.i as int;
        proof {
            lemma_offset_mono(src, i0, i1);
            lemma_offset_step(src, i0);
            lemma_offset_mono(src, i0 + 1, i1);
            let rest = lex_from(src, i1);
            let part: Seq<(Lexed, Span)> = match step.1 {
                Some(l) => seq![(l, char_span(src, i0, i1))],
                None => Seq::empty(),
            };
            assert(lex_from(src, i0) == (part + rest.0, step.2 + rest.1));
            assert(acc + part + rest.0 =~= full.0);
            assert(dacc + step.2 + rest.1 =~= full.1);
            dacc = dacc + step.2;
            acc = acc + part;
        }
        match kind {
            Some(k) => {
                let t = Token::new(k, Span::new(start, cur.b));
                tokens.push(t);
                assert forall|a: int, m: int| 0 <= a < m < tokens@.len() implies #[trigger] tokens@[a].span.end
                    <= #[trigger] tokens@[m].span.start by {
                    if m < tokens@.len() - 1 {
                        assert(tokens@[a] == toks_before[a]);
                        assert(tokens@[m] == toks_before[m]);
                    } else {
                        assert(tokens@[a] == toks_before[a]);
                        assert(toks_before[a].span.end <= start);
                    }
                }
                assert forall|a: int| 0 <= a < acc.len() implies #[trigger] token_is(tokens@[a], acc[a].0, acc[a].1) by {
                    if a < toks_before.len() {
                        assert(tokens@[a] == toks_before[a]);
                    }
                }
            },
            None => {},
        }
    }
    proof { lemma_offset_full(src); }
    assert(lex_from(src, cur.i as int).0 =~= Seq::<(Lexed, Span)>::empty());
    assert(acc + Seq::<(Lexed, Span)>::empty() =~= acc);
    assert(dacc + Seq::<LexDiag>::empty() =~= dacc);
    let end = cur.b;
    let ghost before = tokens@;
    tokens.push(Token::new(TokenKind::Eof, Span::new(end, end)));
    assert forall|a: int, m: int| 0 <= a < m < tokens@.len() implies #[trigger] tokens@[a].span.end
        <= #[trigger] tokens@[m].span.start by {
        assert(tokens@[a] == before[a]);
        if m < tokens@.len() - 1 {
            assert(tokens@[m] == before[m]);
        }
    }
    assert forall|a: int| 0 <= a < acc.len() implies #[trigger] token_is(tokens@[a], acc[a].0, acc[a].1) by {
        assert(tokens@[a] == before[a]);
    }
    LexResult { tokens, diagnostics }
}

} // verus!
