//! The lexer of the Bob language: tokens from the characters of a source
//! file, with diagnostics for malformed literals and comments.
use std::rc::Rc;
use vstd::prelude::*;
use super::diag::{diag_view, diags_view, error_at, error_labelled, CompilerCtx, Diag, DiagModel, LabelModel, Severity};
use super::source::{byte_len, len_utf8, lemma_byte_len_mono, lemma_byte_len_take, utf8_width, SourceFile, Span, Spanned};
use crate::basm::lexer::is_ascii_digit;
use crate::text::{chars_of, is_alphabetic, is_alphanumeric, is_whitespace, string_of_chars, unicode_alphabetic, unicode_alphanumeric, unicode_whitespace};

verus! {

/// A token with its span.
pub type Token = Spanned<TokenKind>;

/// The kinds of tokens.
#[derive(Debug)]
pub enum TokenKind {
    IntLit(u16),
    CharLit(char),
    StrLit(String),
    Ident(String),
    LParen,
    RParen,
    LBrace,
    RBrace,
    Colon,
    ColonColon,
    Semicolon,
    Eq,
    Comma,
    EqEq,
    Gt,
    Ge,
    Lt,
    Le,
    Bang,
    BangEq,
    Tilde,
    Plus,
    Minus,
    Star,
    Slash,
    Percent,
    Amp,
    AmpAmp,
    Pipe,
    PipePipe,
    Caret,
    Eof,
    Error,
}

/// The mathematical form of a token kind: its text as characters.
pub enum KindModel {
    IntLit(u16),
    CharLit(char),
    StrLit(Seq<char>),
    Ident(Seq<char>),
    Plain(TokenKind),
}

/// The mathematical form of a token kind.
pub open spec fn kind_view(k: TokenKind) -> KindModel {
    match k {
        TokenKind::IntLit(v) => KindModel::IntLit(v),
        TokenKind::CharLit(c) => KindModel::CharLit(c),
        TokenKind::StrLit(s) => KindModel::StrLit(s@),
        TokenKind::Ident(s) => KindModel::Ident(s@),
        _ => KindModel::Plain(k),
    }
}

/// The character at `i`, if there is one.
pub open spec fn at(s: Seq<char>, i: int) -> Option<char> {
    if 0 <= i < s.len() { Some(s[i]) } else { None }
}

/// The byte offset of character `i`.
pub open spec fn off(s: Seq<char>, i: int) -> usize {
    byte_len(s.take(i)) as usize
}

/// The span from character `i` to character `j`.
pub open spec fn span_of(s: Seq<char>, i: int, j: int) -> Span {
    Span { lo: off(s, i), hi: off(s, j) }
}

/// The index after the whitespace at `i`.
pub open spec fn skip_ws(s: Seq<char>, i: int) -> int
    decreases s.len() - i,
{
    if 0 <= i < s.len() && unicode_whitespace(s[i]) { skip_ws(s, i + 1) } else { i }
}

/// The index of the first newline at or after `i`, or the end.
pub open spec fn line_end(s: Seq<char>, i: int) -> int
    decreases s.len() - i,
{
    if 0 <= i < s.len() && s[i] != '\n' { line_end(s, i + 1) } else { i }
}

/// Where a block comment ends, `depth` comments deep at `i`, and whether
/// it is closed.
pub open spec fn block_end(s: Seq<char>, i: int, depth: int) -> (int, bool)
    decreases s.len() - i,
{
    if i < 0 || i >= s.len() {
        (i, false)
    } else if s[i] == '/' && at(s, i + 1) == Some('*') {
        block_end(s, i + 2, depth + 1)
    } else if s[i] == '*' && at(s, i + 1) == Some('/') {
        if depth - 1 == 0 { (i + 2, true) } else { block_end(s, i + 2, depth - 1) }
    } else {
        block_end(s, i + 1, depth)
    }
}

/// Whether the characters at `i` are `a` then `b`.
pub open spec fn starts2(s: Seq<char>, i: int, a: char, b: char) -> bool {
    at(s, i) == Some(a) && at(s, i + 1) == Some(b)
}

/// The index after whitespace and comments at `i`, and the diagnostics of
/// unterminated comments.
pub open spec fn trivia(s: Seq<char>, i: int) -> (int, Seq<DiagModel>)
    decreases s.len() - i,
{
    let j = skip_ws(s, i);
    if i < 0 || i > s.len() {
        (i, Seq::empty())
    } else if starts2(s, j, '/', '/') {
        proof {
            lemma_skip_ws(s, i);
            lemma_line_end(s, j + 2);
        }
        trivia(s, line_end(s, j + 2))
    } else if starts2(s, j, '/', '*') {
        proof {
            lemma_skip_ws(s, i);
            lemma_block_end(s, j + 2, 1);
        }
        let (k, closed) = block_end(s, j + 2, 1);
        let d = if closed {
            Seq::empty()
        } else {
            seq![error_labelled("undelimited multiline comment"@, "expected */"@, span_of(s, k, k))]
        };
        if k <= j { (k, d) } else {
            let (m, ds) = trivia(s, k);
            (m, d + ds)
        }
    } else {
        (j, Seq::empty())
    }
}

/// The digits of a number from `i` on, with `num` so far: the index after
/// them, the value, and the diagnostic when it does not fit in 16 bits,
/// after which the digit that overflowed is skipped and reading stops.
pub open spec fn read_num_spec(s: Seq<char>, i: int, start: int, num: u16) -> (int, u16, Seq<DiagModel>)
    decreases s.len() - i,
{
    if 0 <= i < s.len() && is_ascii_digit(s[i]) {
        let d = (s[i] as u32 - 48) as int;
        if num * 10 + d <= u16::MAX {
            read_num_spec(s, i + 1, start, (num * 10 + d) as u16)
        } else {
            (i + 1, num, seq![error_labelled("unsigned 16 bit integer overflow"@,
                "the number is too big for a unsigned 16 bit integer"@, span_of(s, start, i + 1))])
        }
    } else {
        (i, num, Seq::empty())
    }
}

/// An escape sequence after a backslash at `i - 1`: the index after it,
/// the character, and a diagnostic for an unknown or unterminated one.
pub open spec fn read_escape_spec(s: Seq<char>, i: int) -> (int, char, Seq<DiagModel>) {
    match at(s, i) {
        Some('n') => (i + 1, '\n', Seq::empty()),
        Some('t') => (i + 1, '\t', Seq::empty()),
        Some('r') => (i + 1, '\r', Seq::empty()),
        Some('0') => (i + 1, '\0', Seq::empty()),
        Some('\\') => (i + 1, '\\', Seq::empty()),
        Some('\'') => (i + 1, '\'', Seq::empty()),
        Some('\x22') => (i + 1, '\x22', Seq::empty()),
        Some(other) => (i + 1, other, seq![error_at("unknown escape sequence `\\"@ + seq![other, '`'], span_of(s, i - 1, i + 1))]),
        None => (i, '\\', seq![error_at("unterminated escape sequence at EOF"@, span_of(s, i, i))]),
    }
}

/// The index of the first quote or newline at or after `i`, or the end.
pub open spec fn quote_or_line_end(s: Seq<char>, i: int) -> int
    decreases s.len() - i,
{
    if 0 <= i < s.len() && s[i] != '\'' && s[i] != '\n' { quote_or_line_end(s, i + 1) } else { i }
}

/// The end of a character literal starting at `start`, whose character
/// `ch` ends at `q`.
pub open spec fn char_close(s: Seq<char>, start: int, q: int, ch: char, d: Seq<DiagModel>) -> (int, char, Seq<DiagModel>) {
    match at(s, q) {
        Some('\'') => (q + 1, ch, d),
        Some('\n') | None => (q, ch, d.push(error_labelled("unterminated character literal"@, "expected closing "@ + seq!['\x27'], span_of(s, start, q)))),
        Some(_) => {
            let r = quote_or_line_end(s, q);
            let r2 = if at(s, r) == Some('\'') { r + 1 } else { r };
            (r2, ch, d.push(DiagModel {
                severity: Severity::Error,
                message: "character literal contains more than one character"@,
                labels: seq![LabelModel { message: None, span: span_of(s, start, r2), important: true }],
                helps: seq!["if you wanted to write a string, wrap the literal in "@ + seq!['\x22'] + " instead of "@ + seq!['\x27']],
            }))
        },
    }
}

/// A character literal whose opening quote is at `start`.
pub open spec fn read_char_spec(s: Seq<char>, start: int) -> (int, char, Seq<DiagModel>) {
    let p = start + 1;
    match at(s, p) {
        Some('\'') => (p + 1, '\0', seq![error_at("empty character literal"@, span_of(s, start, p + 1))]),
        Some('\\') => {
            let (q, ch, d) = read_escape_spec(s, p + 1);
            char_close(s, start, q, ch, d)
        },
        Some('\n') | None => (p, '\0', seq![error_at("unterminated character literal"@, span_of(s, start, p))]),
        Some(c) => char_close(s, start, p + 1, c, Seq::empty()),
    }
}

/// The rest of a string literal from `i`, with `acc` read so far: the index
/// after it, its text, and its diagnostics.
pub open spec fn read_str_spec(s: Seq<char>, i: int, start: int, acc: Seq<char>, d: Seq<DiagModel>) -> (int, Seq<char>, Seq<DiagModel>)
    decreases s.len() - i,
{
    if i < 0 {
        (i, acc, d)
    } else {
        match at(s, i) {
            Some('\x22') => (i + 1, acc, d),
            Some('\n') | None => (i, acc, d.push(error_at("unterminated string literal"@, span_of(s, start, i)))),
            Some('\\') => {
                let (q, c, de) = read_escape_spec(s, i + 1);
                read_str_spec(s, q, start, acc.push(c), d + de)
            },
            Some(c) => read_str_spec(s, i + 1, start, acc.push(c), d),
        }
    }
}

/// The index after the identifier characters at `i`.
pub open spec fn ident_end(s: Seq<char>, i: int) -> int
    decreases s.len() - i,
{
    if 0 <= i < s.len() && (unicode_alphanumeric(s[i]) || s[i] == '_') { ident_end(s, i + 1) } else { i }
}

/// A symbol at `i`: the index after it, its kind, and a diagnostic when it
/// is none of the language's.
pub open spec fn read_symbol_spec(s: Seq<char>, i: int) -> (int, TokenKind, Seq<DiagModel>) {
    let c = s[i];
    let n = at(s, i + 1);
    let none = Seq::<DiagModel>::empty();
    if c == '\x28' { (i + 1, TokenKind::LParen, none) }
    else if c == '\x29' { (i + 1, TokenKind::RParen, none) }
    else if c == '\x7b' { (i + 1, TokenKind::LBrace, none) }
    else if c == '\x7d' { (i + 1, TokenKind::RBrace, none) }
    else if c == ':' { if n == Some(':') { (i + 2, TokenKind::ColonColon, none) } else { (i + 1, TokenKind::Colon, none) } }
    else if c == ';' { (i + 1, TokenKind::Semicolon, none) }
    else if c == '=' { if n == Some('=') { (i + 2, TokenKind::EqEq, none) } else { (i + 1, TokenKind::Eq, none) } }
    else if c == '>' { if n == Some('=') { (i + 2, TokenKind::Ge, none) } else { (i + 1, TokenKind::Gt, none) } }
    else if c == '<' { if n == Some('=') { (i + 2, TokenKind::Le, none) } else { (i + 1, TokenKind::Lt, none) } }
    else if c == '!' { if n == Some('=') { (i + 2, TokenKind::BangEq, none) } else { (i + 1, TokenKind::Bang, none) } }
    else if c == '~' { (i + 1, TokenKind::Tilde, none) }
    else if c == ',' { (i + 1, TokenKind::Comma, none) }
    else if c == '+' { (i + 1, TokenKind::Plus, none) }
    else if c == '-' { (i + 1, TokenKind::Minus, none) }
    else if c == '*' { (i + 1, TokenKind::Star, none) }
    else if c == '/' { (i + 1, TokenKind::Slash, none) }
    else if c == '%' { (i + 1, TokenKind::Percent, none) }
    else if c == '&' { if n == Some('&') { (i + 2, TokenKind::AmpAmp, none) } else { (i + 1, TokenKind::Amp, none) } }
    else if c == '|' { if n == Some('|') { (i + 2, TokenKind::PipePipe, none) } else { (i + 1, TokenKind::Pipe, none) } }
    else if c == '^' { (i + 1, TokenKind::Caret, none) }
    else {
        (i + 1, TokenKind::Error, seq![error_labelled("unexpected symbol"@, "unexpected symbol "@ + seq!['\x27', c, '\x27'], span_of(s, i, i + 1))])
    }
}

/// The next token from index `i`: the index after it, its kind, its span,
/// and the diagnostics on the way.
pub open spec fn next_token_spec(s: Seq<char>, i: int) -> (int, KindModel, Span, Seq<DiagModel>) {
    let (j, d) = trivia(s, i);
    if j >= s.len() {
        (j, KindModel::Plain(TokenKind::Eof), span_of(s, j, j), d)
    } else {
        let c = s[j];
        if is_ascii_digit(c) {
            let (k, v, e) = read_num_spec(s, j, j, 0);
            (k, KindModel::IntLit(v), span_of(s, j, k), d + e)
        } else if c == '\'' {
            let (k, ch, e) = read_char_spec(s, j);
            (k, KindModel::CharLit(ch), span_of(s, j, k), d + e)
        } else if c == '\x22' {
            let (k, text, e) = read_str_spec(s, j + 1, j, Seq::empty(), Seq::empty());
            (k, KindModel::StrLit(text), span_of(s, j, k), d + e)
        } else if unicode_alphabetic(c) || c == '_' {
            let k = ident_end(s, j + 1);
            (k, KindModel::Ident(s.subrange(j, k)), span_of(s, j, k), d)
        } else {
            let (k, kind, e) = read_symbol_spec(s, j);
            (k, kind_view(kind), span_of(s, j, k), d + e)
        }
    }
}


pub proof fn lemma_skip_ws(s: Seq<char>, i: int)
    requires
        0 <= i <= s.len(),
    ensures
        i <= skip_ws(s, i) <= s.len(),
    decreases s.len() - i,
{
    if i < s.len() && unicode_whitespace(s[i]) {
        lemma_skip_ws(s, i + 1);
    }
}

pub proof fn lemma_line_end(s: Seq<char>, i: int)
    requires
        0 <= i <= s.len(),
    ensures
        i <= line_end(s, i) <= s.len(),
    decreases s.len() - i,
{
    if i < s.len() && s[i] != '\n' {
        lemma_line_end(s, i + 1);
    }
}

pub proof fn lemma_block_end(s: Seq<char>, i: int, depth: int)
    requires
        0 <= i <= s.len(),
    ensures
        i <= block_end(s, i, depth).0 <= s.len(),
        !block_end(s, i, depth).1 ==> block_end(s, i, depth).0 == s.len(),
    decreases s.len() - i,
{
    if i < s.len() {
        if s[i] == '/' && at(s, i + 1) == Some('*') {
            lemma_block_end(s, i + 2, depth + 1);
        } else if s[i] == '*' && at(s, i + 1) == Some('/') {
            if depth - 1 != 0 {
                lemma_block_end(s, i + 2, depth - 1);
            }
        } else {
            lemma_block_end(s, i + 1, depth);
        }
    }
}


/// Adding a diagnostic adds its form.
proof fn lemma_diags_push(ds: Seq<Diag>, d: Diag)
    ensures
        diags_view(ds.push(d)) == diags_view(ds).push(diag_view(d)),
{
    assert(diags_view(ds.push(d)) =~= diags_view(ds).push(diag_view(d)));
}

/// A lexer over the characters of a source file.
pub struct Lexer {
    pub ctx: CompilerCtx,
    position: usize,
    index: usize,
    chars: Vec<char>,
}

impl Lexer {
    /// Whether the position and characters agree with the source file.
    pub closed spec fn wf(&self) -> bool {
        &&& self.ctx.source.wf()
        &&& self.chars@ == self.ctx.source.text()
        &&& self.index <= self.chars@.len()
        &&& self.position == off(self.chars@, self.index as int)
        &&& byte_len(self.chars@) < usize::MAX
        &&& self.chars@.len() < 0x7fff_ffff
    }

    /// The characters of the source.
    pub closed spec fn text(&self) -> Seq<char> {
        self.chars@
    }

    /// The number of characters read so far.
    pub closed spec fn index(&self) -> int {
        self.index as int
    }

    /// The context: the source file and the diagnostics so far.
    pub closed spec fn context(&self) -> CompilerCtx {
        self.ctx
    }

    /// A lexer at the start of `ctx`'s source file.
    pub fn new(ctx: CompilerCtx) -> (l: Self)
        requires
            ctx.source.wf(),
            byte_len(ctx.source.text()) < usize::MAX,
            ctx.source.text().len() < 0x7fff_ffff,
        ensures
            l.wf(),
            l.index() == 0,
            l.text() == ctx.source.text(),
            l.context() == ctx,
    {
        let chars = chars_of(ctx.source.text_str());
        proof { assert(chars@.take(0) =~= Seq::<char>::empty()); }
        Lexer { ctx, position: 0, index: 0, chars }
    }

    /// The next character, if any.
    fn peek(&self) -> (r: Option<char>)
        requires
            self.wf(),
        ensures
            r == at(self.chars@, self.index as int),
    {
        if self.index < self.chars.len() { Some(self.chars[self.index]) } else { None }
    }

    /// Moves past the next character.
    fn advance(&mut self)
        requires
            old(self).wf(),
            old(self).index < old(self).chars@.len(),
        ensures
            final(self).wf(),
            final(self).index == old(self).index + 1,
            final(self).chars == old(self).chars,
            final(self).ctx == old(self).ctx,
    {
        proof {
            lemma_byte_len_take(self.chars@, self.index as int);
            lemma_byte_len_mono(self.chars@, self.index + 1, self.chars@.len() as int);
            assert(self.chars@.take(self.chars@.len() as int) =~= self.chars@);
        }
        let c = self.chars[self.index];
        self.position = self.position + len_utf8(c);
        self.index = self.index + 1;
    }

    /// The byte offset of character `i`, for `i` up to the end.
    fn offset_at(&self, i: usize) -> (o: usize)
        requires
            self.wf(),
            self.index <= i <= self.chars@.len(),
        ensures
            o == off(self.chars@, i as int),
    {
        let mut k = self.index;
        let mut o = self.position;
        while k < i
            invariant
                self.wf(),
                self.index <= k <= i <= self.chars@.len(),
                o == off(self.chars@, k as int),
            decreases i - k,
        {
            proof {
                lemma_byte_len_take(self.chars@, k as int);
                lemma_byte_len_mono(self.chars@, k + 1, self.chars@.len() as int);
                assert(self.chars@.take(self.chars@.len() as int) =~= self.chars@);
            }
            o = o + len_utf8(self.chars[k]);
            k += 1;
        }
        o
    }

    /// Records an error with one important label.
    fn error(&mut self, message: String, span: Span)
        ensures
            diags_view(final(self).ctx.diags@) == diags_view(old(self).ctx.diags@).push(error_at(message@, span)),
            final(self).ctx.source == old(self).ctx.source,
            final(self).chars == old(self).chars,
            final(self).index == old(self).index,
            final(self).position == old(self).position,
    {
        let d = Diag::new(&self.ctx.source, message).with_label(span, true);
        proof {
            assert(diag_view(d).labels =~= seq![LabelModel { message: None, span, important: true }]);
            assert(diag_view(d).helps =~= Seq::<Seq<char>>::empty());
            lemma_diags_push(self.ctx.diags@, d);
        }
        self.ctx.emit_diag(d);
    }

    /// Records an error with one important label with a message.
    fn error_labelled(&mut self, message: String, label: String, span: Span)
        ensures
            diags_view(final(self).ctx.diags@) == diags_view(old(self).ctx.diags@).push(error_labelled(message@, label@, span)),
            final(self).ctx.source == old(self).ctx.source,
            final(self).chars == old(self).chars,
            final(self).index == old(self).index,
            final(self).position == old(self).position,
    {
        let d = Diag::new(&self.ctx.source, message).with_message_label(label, span, true);
        proof {
            assert(diag_view(d).labels =~= seq![LabelModel { message: Some(label@), span, important: true }]);
            assert(diag_view(d).helps =~= Seq::<Seq<char>>::empty());
            lemma_diags_push(self.ctx.diags@, d);
        }
        self.ctx.emit_diag(d);
    }
}


impl Lexer {
    /// Skips whitespace.
    fn skip_whitespace(&mut self)
        requires
            old(self).wf(),
        ensures
            final(self).wf(),
            final(self).index == skip_ws(old(self).chars@, old(self).index as int),
            final(self).chars == old(self).chars,
            final(self).ctx == old(self).ctx,
    {
        let ghost i0 = self.index as int;
        while self.index < self.chars.len() && is_whitespace(self.chars[self.index])
            invariant
                self.wf(),
                self.chars == old(self).chars,
                self.ctx == old(self).ctx,
                skip_ws(self.chars@, self.index as int) == skip_ws(self.chars@, i0),
            decreases self.chars@.len() - self.index,
        {
            self.advance();
        }
    }

    /// Skips a line comment starting at the next character.
    fn skip_line_comment(&mut self)
        requires
            old(self).wf(),
            starts2(old(self).chars@, old(self).index as int, '/', '/'),
        ensures
            final(self).wf(),
            final(self).index == line_end(old(self).chars@, old(self).index + 2),
            final(self).chars == old(self).chars,
            final(self).ctx == old(self).ctx,
    {
        self.advance();
        self.advance();
        while self.index < self.chars.len() && self.chars[self.index] != '\n'
            invariant
                self.wf(),
                self.chars == old(self).chars,
                self.ctx == old(self).ctx,
                line_end(self.chars@, self.index as int) == line_end(old(self).chars@, old(self).index + 2),
            decreases self.chars@.len() - self.index,
        {
            self.advance();
        }
    }

    /// Skips a block comment starting at the next character, nested ones
    /// included; whether it was closed.
    fn skip_block_comment(&mut self) -> (closed: bool)
        requires
            old(self).wf(),
            starts2(old(self).chars@, old(self).index as int, '/', '*'),
        ensures
            final(self).wf(),
            (final(self).index as int, closed) == block_end(old(self).chars@, old(self).index + 2, 1),
            final(self).chars == old(self).chars,
            final(self).ctx == old(self).ctx,
    {
        self.advance();
        self.advance();
        let mut depth: i32 = 1;
        let ghost target = block_end(self.chars@, self.index as int, 1);
        loop
            invariant_except_break
                1 <= depth <= self.index,
                block_end(self.chars@, self.index as int, depth as int) == target,
            invariant
                self.wf(),
                self.chars == old(self).chars,
                self.ctx == old(self).ctx,
            ensures
                (self.index as int, depth == 0) == target,
            decreases self.chars@.len() - self.index,
        {
            if self.index >= self.chars.len() {
                break;
            }
            let c = self.chars[self.index];
            let next = if self.index + 1 < self.chars.len() { Some(self.chars[self.index + 1]) } else { None };
            if c == '/' && next == Some('*') {
                depth = depth + 1;
                self.advance();
                self.advance();
            } else if c == '*' && next == Some('/') {
                depth = depth - 1;
                self.advance();
                self.advance();
                if depth == 0 {
                    break;
                }
            } else {
                self.advance();
            }
        }
        depth == 0
    }

    /// Skips whitespace and comments, reporting unterminated block comments.
    fn skip_trivial(&mut self)
        requires
            old(self).wf(),
        ensures
            final(self).wf(),
            final(self).index == trivia(old(self).chars@, old(self).index as int).0,
            diags_view(final(self).ctx.diags@) == diags_view(old(self).ctx.diags@) + trivia(old(self).chars@, old(self).index as int).1,
            final(self).chars == old(self).chars,
            final(self).ctx.source == old(self).ctx.source,
    {
        let ghost s = self.chars@;
        let ghost goal = trivia(s, self.index as int);
        let ghost mut done: Seq<DiagModel> = Seq::empty();
        proof { assert(diags_view(self.ctx.diags@) =~= diags_view(old(self).ctx.diags@) + done); }
        loop
            invariant_except_break
                goal.0 == trivia(s, self.index as int).0,
                goal.1 == done + trivia(s, self.index as int).1,
            invariant
                self.wf(),
                self.chars@ == s,
                self.chars == old(self).chars,
                self.ctx.source == old(self).ctx.source,
                diags_view(self.ctx.diags@) == diags_view(old(self).ctx.diags@) + done,
            ensures
                self.index == goal.0,
                goal.1 == done,
            decreases self.chars@.len() - self.index,
        {
            let ghost i = self.index as int;
            self.skip_whitespace();
            let ghost j = self.index as int;
            proof { lemma_skip_ws(s, i); }
            let two = self.index + 1 < self.chars.len();
            if two && self.chars[self.index] == '/' && self.chars[self.index + 1] == '/' {
                self.skip_line_comment();
                proof { lemma_line_end(s, j + 2); }
            } else if two && self.chars[self.index] == '/' && self.chars[self.index + 1] == '*' {
                proof { lemma_block_end(s, j + 2, 1); }
                let closed = self.skip_block_comment();
                if !closed {
                    let pos = self.position;
                    let ghost before = self.ctx.diags@;
                    self.error_labelled("undelimited multiline comment".to_owned(), "expected */".to_owned(), Span::new(pos, pos));
                    proof {
                        done = done.push(error_labelled("undelimited multiline comment"@, "expected */"@, span_of(s, self.index as int, self.index as int)));
                        assert(diags_view(self.ctx.diags@) =~= diags_view(old(self).ctx.diags@) + done);
                    }
                }
                proof {
                    let k = self.index as int;
                    let d = if closed { Seq::<DiagModel>::empty() } else {
                        seq![error_labelled("undelimited multiline comment"@, "expected */"@, span_of(s, k, k))]
                    };
                    assert(trivia(s, i).1 == d + trivia(s, k).1);
                    if closed {
                        assert(done + trivia(s, k).1 =~= done + (d + trivia(s, k).1));
                    } else {
                        assert(done + trivia(s, k).1 =~= done.drop_last() + (d + trivia(s, k).1));
                    }
                }
            } else {
                proof {
                    assert(trivia(s, i) == (j, Seq::<DiagModel>::empty()));
                    assert(done + Seq::<DiagModel>::empty() =~= done);
                }
                break;
            }
        }
    }
}


/// The index after a number is past its start.
proof fn lemma_read_num(s: Seq<char>, i: int, start: int, num: u16)
    requires
        0 <= i <= s.len(),
    ensures
        i <= read_num_spec(s, i, start, num).0 <= s.len(),
    decreases s.len() - i,
{
    if i < s.len() && is_ascii_digit(s[i]) {
        let d = (s[i] as u32 - 48) as int;
        if num * 10 + d <= u16::MAX {
            lemma_read_num(s, i + 1, start, (num * 10 + d) as u16);
        }
    }
}

impl Lexer {
    /// Reads a number at the next character.
    fn read_num(&mut self) -> (t: Token)
        requires
            old(self).wf(),
        ensures
            final(self).wf(),
            ({
                let (k, v, e) = read_num_spec(old(self).chars@, old(self).index as int, old(self).index as int, 0);
                &&& final(self).index == k
                &&& kind_view(t.inner) == KindModel::IntLit(v)
                &&& t.span == span_of(old(self).chars@, old(self).index as int, k)
                &&& diags_view(final(self).ctx.diags@) == diags_view(old(self).ctx.diags@) + e
            }),
            final(self).chars == old(self).chars,
            final(self).ctx.source == old(self).ctx.source,
    {
        let ghost s = self.chars@;
        let ghost st = self.index as int;
        let ghost goal = read_num_spec(s, st, st, 0);
        let mut num: u16 = 0;
        let start = self.position;
        proof { assert(diags_view(self.ctx.diags@) =~= diags_view(old(self).ctx.diags@) + Seq::<DiagModel>::empty()); }
        loop
            invariant_except_break
                read_num_spec(s, self.index as int, st, num) == goal,
                diags_view(self.ctx.diags@) == diags_view(old(self).ctx.diags@),
            invariant
                self.wf(),
                self.chars@ == s,
                self.chars == old(self).chars,
                self.ctx.source == old(self).ctx.source,
                start == off(s, st),
                st <= self.index,
            ensures
                self.index == goal.0,
                num == goal.1,
                diags_view(self.ctx.diags@) == diags_view(old(self).ctx.diags@) + goal.2,
            decreases self.chars@.len() - self.index,
        {
            if self.index >= self.chars.len() || !('0' <= self.chars[self.index] && self.chars[self.index] <= '9') {
                proof { assert(diags_view(self.ctx.diags@) =~= diags_view(old(self).ctx.diags@) + Seq::<DiagModel>::empty()); }
                break;
            }
            let c = self.chars[self.index];
            self.advance();
            let d: u32 = (c as u32) - 48;
            let t: u32 = (num as u32) * 10 + d;
            if t <= 65535 {
                num = t as u16;
            } else {
                let hi = self.position;
                self.error_labelled("unsigned 16 bit integer overflow".to_owned(),
                    "the number is too big for a unsigned 16 bit integer".to_owned(), Span::new(start, hi));
                break;
            }
        }
        Spanned::new(TokenKind::IntLit(num), Span::new(start, self.position))
    }

    /// Reads an escape sequence after a backslash.
    fn read_escape(&mut self) -> (c: char)
        requires
            old(self).wf(),
            old(self).index >= 1,
            old(self).chars@[old(self).index - 1] == '\\',
        ensures
            final(self).wf(),
            ({
                let (k, ch, e) = read_escape_spec(old(self).chars@, old(self).index as int);
                &&& final(self).index == k
                &&& c == ch
                &&& diags_view(final(self).ctx.diags@) == diags_view(old(self).ctx.diags@) + e
            }),
            final(self).chars == old(self).chars,
            final(self).ctx.source == old(self).ctx.source,
    {
        let ghost s = self.chars@;
        let ghost i = self.index as int;
        proof { assert(diags_view(self.ctx.diags@) =~= diags_view(old(self).ctx.diags@) + Seq::<DiagModel>::empty()); }
        match self.peek() {
            Some('n') => { self.advance(); '\n' }
            Some('t') => { self.advance(); '\t' }
            Some('r') => { self.advance(); '\r' }
            Some('0') => { self.advance(); '\0' }
            Some('\\') => { self.advance(); '\\' }
            Some('\'') => { self.advance(); '\'' }
            Some('\x22') => { self.advance(); '\x22' }
            Some(other) => {
                proof {
                    lemma_byte_len_take(s, i - 1);
                    assert(('\\' as u32) == 92);
                    lemma_byte_len_mono(s, i - 1, s.len() as int);
                    assert(s.take(s.len() as int) =~= s);
                }
                let start = self.position - 1;
                self.advance();
                let hi = self.position;
                let mut m = chars_of("unknown escape sequence `\\");
                m.push(other);
                m.push('`');
                let msg = string_of_chars(m.as_slice());
                self.error(msg, Span::new(start, hi));
                proof {
                    assert(m@ =~= "unknown escape sequence `\\"@ + seq![other, '`']);
                    assert(diags_view(self.ctx.diags@) =~= diags_view(old(self).ctx.diags@) + read_escape_spec(s, i).2);
                }
                other
            }
            None => {
                let pos = self.position;
                self.error("unterminated escape sequence at EOF".to_owned(), Span::new(pos, pos));
                proof { assert(diags_view(self.ctx.diags@) =~= diags_view(old(self).ctx.diags@) + read_escape_spec(s, i).2); }
                '\\'
            }
        }
    }
}


proof fn lemma_quote_or_line_end(s: Seq<char>, i: int)
    requires
        0 <= i <= s.len(),
    ensures
        i <= quote_or_line_end(s, i) <= s.len(),
    decreases s.len() - i,
{
    if i < s.len() && s[i] != '\'' && s[i] != '\n' {
        lemma_quote_or_line_end(s, i + 1);
    }
}

impl Lexer {
    /// Records an error with one important label and a help text.
    fn error_with_help(&mut self, message: String, span: Span, help: String)
        ensures
            diags_view(final(self).ctx.diags@) == diags_view(old(self).ctx.diags@).push(DiagModel {
                severity: Severity::Error,
                message: message@,
                labels: seq![LabelModel { message: None, span, important: true }],
                helps: seq![help@],
            }),
            final(self).ctx.source == old(self).ctx.source,
            final(self).chars == old(self).chars,
            final(self).index == old(self).index,
            final(self).position == old(self).position,
    {
        let d = Diag::new(&self.ctx.source, message).with_label(span, true).with_text_help(help);
        proof {
            assert(diag_view(d).labels =~= seq![LabelModel { message: None, span, important: true }]);
            assert(diag_view(d).helps =~= seq![help@]);
            lemma_diags_push(self.ctx.diags@, d);
        }
        self.ctx.emit_diag(d);
    }

    /// Reads a character literal at the next character, an opening quote.
    fn read_char(&mut self) -> (t: Token)
        requires
            old(self).wf(),
            at(old(self).chars@, old(self).index as int) == Some('\''),
        ensures
            final(self).wf(),
            ({
                let (k, ch, e) = read_char_spec(old(self).chars@, old(self).index as int);
                &&& final(self).index == k
                &&& kind_view(t.inner) == KindModel::CharLit(ch)
                &&& t.span == span_of(old(self).chars@, old(self).index as int, k)
                &&& diags_view(final(self).ctx.diags@) == diags_view(old(self).ctx.diags@) + e
            }),
            final(self).chars == old(self).chars,
            final(self).ctx.source == old(self).ctx.source,
    {
        let ghost s = self.chars@;
        let ghost st = self.index as int;
        let ghost d0 = diags_view(self.ctx.diags@);
        let start = self.position;
        self.advance();
        let ghost p = self.index as int;
        let ch: char;
        let ghost mut e: Seq<DiagModel> = Seq::empty();
        match self.peek() {
            Some('\'') => {
                self.advance();
                let hi = self.position;
                self.error("empty character literal".to_owned(), Span::new(start, hi));
                proof { assert(diags_view(self.ctx.diags@) =~= d0 + read_char_spec(s, st).2); }
                return Spanned::new(TokenKind::CharLit('\0'), Span::new(start, hi));
            }
            Some('\\') => {
                self.advance();
                let ghost b = diags_view(self.ctx.diags@);
                ch = self.read_escape();
                proof { e = read_escape_spec(s, p + 1).2; }
            }
            Some('\n') | None => {
                let hi = self.position;
                self.error("unterminated character literal".to_owned(), Span::new(start, hi));
                proof { assert(diags_view(self.ctx.diags@) =~= d0 + read_char_spec(s, st).2); }
                return Spanned::new(TokenKind::CharLit('\0'), Span::new(start, hi));
            }
            Some(c) => {
                self.advance();
                ch = c;
            }
        }
        proof {
            assert(diags_view(self.ctx.diags@) == d0 + e);
        }
        let ghost q = self.index as int;
        match self.peek() {
            Some('\'') => {
                self.advance();
            }
            Some('\n') | None => {
                let hi = self.position;
                let mut m = chars_of("expected closing ");
                m.push('\'');
                let label = string_of_chars(m.as_slice());
                self.error_labelled("unterminated character literal".to_owned(), label, Span::new(start, hi));
                proof { assert(m@ =~= "expected closing "@ + seq!['\x27']); }
            }
            Some(_) => {
                proof { lemma_quote_or_line_end(s, q); }
                while self.index < self.chars.len() && self.chars[self.index] != '\'' && self.chars[self.index] != '\n'
                    invariant
                        self.wf(),
                        self.chars@ == s,
                        self.chars == old(self).chars,
                        self.ctx.source == old(self).ctx.source,
                        diags_view(self.ctx.diags@) == d0 + e,
                        quote_or_line_end(s, self.index as int) == quote_or_line_end(s, q),
                    decreases self.chars@.len() - self.index,
                {
                    self.advance();
                }
                if self.index < self.chars.len() && self.chars[self.index] == '\'' {
                    self.advance();
                }
                let hi = self.position;
                let mut h = chars_of("if you wanted to write a string, wrap the literal in ");
                h.push('\x22');
                let h2 = chars_of(" instead of ");
                let mut k: usize = 0;
                let ghost h0 = h@;
                while k < h2.len()
                    invariant
                        k <= h2@.len(),
                        h@ == h0 + h2@.take(k as int),
                    decreases h2@.len() - k,
                {
                    h.push(h2[k]);
                    proof { assert(h2@.take(k + 1) =~= h2@.take(k as int).push(h2@[k as int])); }
                    k += 1;
                }
                h.push('\'');
                proof {
                    assert(h2@.take(h2@.len() as int) =~= h2@);
                    assert(h@ =~= "if you wanted to write a string, wrap the literal in "@ + seq!['\x22'] + " instead of "@ + seq!['\x27']);
                }
                let help = string_of_chars(h.as_slice());
                self.error_with_help("character literal contains more than one character".to_owned(), Span::new(start, hi), help);
            }
        }
        proof {
            assert(diags_view(self.ctx.diags@) =~= d0 + read_char_spec(s, st).2);
        }
        Spanned::new(TokenKind::CharLit(ch), Span::new(start, self.position))
    }
}


proof fn lemma_ident_end(s: Seq<char>, i: int)
    requires
        0 <= i <= s.len(),
    ensures
        i <= ident_end(s, i) <= s.len(),
    decreases s.len() - i,
{
    if i < s.len() && (unicode_alphanumeric(s[i]) || s[i] == '_') {
        lemma_ident_end(s, i + 1);
    }
}

impl Lexer {
    /// Reads a string literal at the next character, an opening quote.
    fn read_str(&mut self) -> (t: Token)
        requires
            old(self).wf(),
            at(old(self).chars@, old(self).index as int) == Some('\x22'),
        ensures
            final(self).wf(),
            ({
                let (k, text, e) = read_str_spec(old(self).chars@, old(self).index + 1, old(self).index as int, Seq::empty(), Seq::empty());
                &&& final(self).index == k
                &&& kind_view(t.inner) == KindModel::StrLit(text)
                &&& t.span == span_of(old(self).chars@, old(self).index as int, k)
                &&& diags_view(final(self).ctx.diags@) == diags_view(old(self).ctx.diags@) + e
            }),
            final(self).chars == old(self).chars,
            final(self).ctx.source == old(self).ctx.source,
    {
        let ghost s = self.chars@;
        let ghost st = self.index as int;
        let ghost d0 = diags_view(self.ctx.diags@);
        let ghost goal = read_str_spec(s, st + 1, st, Seq::empty(), Seq::empty());
        let start = self.position;
        self.advance();
        let mut text: Vec<char> = Vec::new();
        let ghost mut e: Seq<DiagModel> = Seq::empty();
        proof { assert(diags_view(self.ctx.diags@) =~= d0 + e); }
        loop
            invariant_except_break
                read_str_spec(s, self.index as int, st, text@, e) == goal,
            invariant
                self.wf(),
                self.chars@ == s,
                self.chars == old(self).chars,
                self.ctx.source == old(self).ctx.source,
                start == off(s, st),
                st < self.index,
                diags_view(self.ctx.diags@) == d0 + e,
            ensures
                self.index == goal.0,
                text@ == goal.1,
                e == goal.2,
            decreases self.chars@.len() - self.index,
        {
            match self.peek() {
                Some('\x22') => {
                    self.advance();
                    break;
                }
                Some('\n') | None => {
                    let hi = self.position;
                    self.error("unterminated string literal".to_owned(), Span::new(start, hi));
                    proof {
                        e = e.push(error_at("unterminated string literal"@, span_of(s, st, self.index as int)));
                        assert(diags_view(self.ctx.diags@) =~= d0 + e);
                    }
                    break;
                }
                Some('\\') => {
                    let ghost i0 = self.index as int;
                    self.advance();
                    let ghost before = e;
                    let c = self.read_escape();
                    text.push(c);
                    proof {
                        e = before + read_escape_spec(s, i0 + 1).2;
                        assert(diags_view(self.ctx.diags@) =~= d0 + e);
                    }
                }
                Some(c) => {
                    self.advance();
                    text.push(c);
                }
            }
        }
        Spanned::new(TokenKind::StrLit(string_of_chars(text.as_slice())), Span::new(start, self.position))
    }
}


impl Lexer {
    /// Reads an identifier: letters, digits and underscores.
    pub fn read_ident(&mut self) -> (t: Token)
        requires
            old(self).wf(),
        ensures
            final(self).wf(),
            ({
                let k = ident_end(old(self).text(), old(self).index());
                &&& final(self).index() == k
                &&& kind_view(t.inner) == KindModel::Ident(old(self).text().subrange(old(self).index(), k))
                &&& t.span == span_of(old(self).text(), old(self).index(), k)
            }),
            final(self).text() == old(self).text(),
            final(self).context() == old(self).context(),
    {
        let ghost s = self.chars@;
        let ghost st = self.index as int;
        proof { lemma_ident_end(s, st); }
        let start = self.position;
        let mut ident: Vec<char> = Vec::new();
        while self.index < self.chars.len() && (is_alphanumeric(self.chars[self.index]) || self.chars[self.index] == '_')
            invariant
                self.wf(),
                self.chars@ == s,
                self.chars == old(self).chars,
                self.ctx == old(self).ctx,
                st <= self.index <= ident_end(s, st),
                ident_end(s, self.index as int) == ident_end(s, st),
                ident@ == s.subrange(st, self.index as int),
                start == off(s, st),
            decreases self.chars@.len() - self.index,
        {
            let c = self.chars[self.index];
            ident.push(c);
            proof {
                assert(s.subrange(st, self.index + 1) =~= s.subrange(st, self.index as int).push(c));
                lemma_ident_end(s, self.index + 1);
            }
            self.advance();
        }
        Spanned::new(TokenKind::Ident(string_of_chars(ident.as_slice())), Span::new(start, self.position))
    }

    /// Reads a symbol at the next character, which there must be.
    pub fn read_symbol(&mut self) -> (t: Token)
        requires
            old(self).wf(),
            old(self).index() < old(self).text().len(),
        ensures
            final(self).wf(),
            ({
                let (k, kind, e) = read_symbol_spec(old(self).text(), old(self).index());
                &&& final(self).index() == k
                &&& kind_view(t.inner) == kind_view(kind)
                &&& t.span == span_of(old(self).text(), old(self).index(), k)
                &&& diags_view(final(self).context().diags@) == diags_view(old(self).context().diags@) + e
            }),
            final(self).text() == old(self).text(),
            final(self).context().source == old(self).context().source,
    {
        let ghost s = self.chars@;
        let ghost st = self.index as int;
        let start = self.position;
        let c = self.chars[self.index];
        self.advance();
        let n = self.peek();
        proof { assert(diags_view(self.ctx.diags@) =~= diags_view(old(self).ctx.diags@) + Seq::<DiagModel>::empty()); }
        let tk = if c == '\x28' {
            TokenKind::LParen
        } else if c == '\x29' {
            TokenKind::RParen
        } else if c == '\x7b' {
            TokenKind::LBrace
        } else if c == '\x7d' {
            TokenKind::RBrace
        } else if c == ':' {
            if n == Some(':') { self.advance(); TokenKind::ColonColon } else { TokenKind::Colon }
        } else if c == ';' {
            TokenKind::Semicolon
        } else if c == '=' {
            if n == Some('=') { self.advance(); TokenKind::EqEq } else { TokenKind::Eq }
        } else if c == '>' {
            if n == Some('=') { self.advance(); TokenKind::Ge } else { TokenKind::Gt }
        } else if c == '<' {
            if n == Some('=') { self.advance(); TokenKind::Le } else { TokenKind::Lt }
        } else if c == '!' {
            if n == Some('=') { self.advance(); TokenKind::BangEq } else { TokenKind::Bang }
        } else if c == '~' {
            TokenKind::Tilde
        } else if c == ',' {
            TokenKind::Comma
        } else if c == '+' {
            TokenKind::Plus
        } else if c == '-' {
            TokenKind::Minus
        } else if c == '*' {
            TokenKind::Star
        } else if c == '/' {
            TokenKind::Slash
        } else if c == '%' {
            TokenKind::Percent
        } else if c == '&' {
            if n == Some('&') { self.advance(); TokenKind::AmpAmp } else { TokenKind::Amp }
        } else if c == '|' {
            if n == Some('|') { self.advance(); TokenKind::PipePipe } else { TokenKind::Pipe }
        } else if c == '^' {
            TokenKind::Caret
        } else {
            let hi = self.position;
            let mut m = chars_of("unexpected symbol ");
            m.push('\'');
            m.push(c);
            m.push('\'');
            let label = string_of_chars(m.as_slice());
            self.error_labelled("unexpected symbol".to_owned(), label, Span::new(start, hi));
            proof {
                assert(m@ =~= "unexpected symbol "@ + seq!['\x27', c, '\x27']);
                assert(diags_view(self.ctx.diags@) =~= diags_view(old(self).ctx.diags@) + read_symbol_spec(s, st).2);
            }
            TokenKind::Error
        };
        Spanned::new(tk, Span::new(start, self.position))
    }

    /// The next token: whitespace and comments skipped, then a number, a
    /// character or string literal, an identifier or a symbol; at the end,
    /// the end-of-file token, again and again.
    pub fn next_token(&mut self) -> (t: Token)
        requires
            old(self).wf(),
        ensures
            final(self).wf(),
            ({
                let (k, kind, span, e) = next_token_spec(old(self).text(), old(self).index());
                &&& final(self).index() == k
                &&& kind_view(t.inner) == kind
                &&& t.span == span
                &&& diags_view(final(self).context().diags@) == diags_view(old(self).context().diags@) + e
            }),
            final(self).text() == old(self).text(),
            final(self).context().source == old(self).context().source,
    {
        let ghost s = self.chars@;
        let ghost i = self.index as int;
        self.skip_trivial();
        let ghost d1 = diags_view(self.ctx.diags@);
        let ghost j = self.index as int;
        if self.index >= self.chars.len() {
            let pos = self.position;
            proof { assert(d1 =~= diags_view(old(self).ctx.diags@) + trivia(s, i).1); }
            return Spanned::new(TokenKind::Eof, Span::new(pos, pos));
        }
        let c = self.chars[self.index];
        if '0' <= c && c <= '9' {
            let t = self.read_num();
            proof { assert(diags_view(self.ctx.diags@) =~= diags_view(old(self).ctx.diags@) + (trivia(s, i).1 + read_num_spec(s, j, j, 0).2)); }
            t
        } else if c == '\'' {
            let t = self.read_char();
            proof { assert(diags_view(self.ctx.diags@) =~= diags_view(old(self).ctx.diags@) + (trivia(s, i).1 + read_char_spec(s, j).2)); }
            t
        } else if c == '\x22' {
            let t = self.read_str();
            proof { assert(diags_view(self.ctx.diags@) =~= diags_view(old(self).ctx.diags@) + (trivia(s, i).1 + read_str_spec(s, j + 1, j, Seq::empty(), Seq::empty()).2)); }
            t
        } else if is_alphabetic(c) || c == '_' {
            proof { assert(ident_end(s, j) == ident_end(s, j + 1)); }
            let t = self.read_ident();
            proof { assert(diags_view(self.ctx.diags@) =~= diags_view(old(self).ctx.diags@) + trivia(s, i).1); }
            t
        } else {
            let t = self.read_symbol();
            proof { assert(diags_view(self.ctx.diags@) =~= diags_view(old(self).ctx.diags@) + (trivia(s, i).1 + read_symbol_spec(s, j).2)); }
            t
        }
    }
}


/// Whitespace and comments end between where they start and the end.
pub proof fn lemma_trivia(s: Seq<char>, i: int)
    requires
        0 <= i <= s.len(),
    ensures
        i <= trivia(s, i).0 <= s.len(),
    decreases s.len() - i,
{
    lemma_skip_ws(s, i);
    let j = skip_ws(s, i);
    if starts2(s, j, '/', '/') {
        lemma_line_end(s, j + 2);
        lemma_trivia(s, line_end(s, j + 2));
    } else if starts2(s, j, '/', '*') {
        lemma_block_end(s, j + 2, 1);
        let k = block_end(s, j + 2, 1).0;
        lemma_trivia(s, k);
    }
}

proof fn lemma_read_str(s: Seq<char>, i: int, start: int, acc: Seq<char>, d: Seq<DiagModel>)
    requires
        0 <= i <= s.len(),
    ensures
        i <= read_str_spec(s, i, start, acc, d).0 <= s.len(),
    decreases s.len() - i,
{
    match at(s, i) {
        Some('\x22') => {},
        Some('\n') | None => {},
        Some('\\') => {
            let (q, c, de) = read_escape_spec(s, i + 1);
            lemma_read_str(s, q, start, acc.push(c), d + de);
        },
        Some(c) => {
            lemma_read_str(s, i + 1, start, acc.push(c), d);
        },
    }
}

/// Each token moves past at least one character, except the end-of-file
/// token, which comes at the end and comes again from there.
pub proof fn lemma_next_token_progress(s: Seq<char>, i: int)
    requires
        0 <= i <= s.len(),
    ensures
        i <= next_token_spec(s, i).0 <= s.len(),
        next_token_spec(s, i).1 != KindModel::Plain(TokenKind::Eof) ==> next_token_spec(s, i).0 > i,
        next_token_spec(s, i).1 == KindModel::Plain(TokenKind::Eof) ==> next_token_spec(s, i).0 == s.len()
            && next_token_spec(s, s.len() as int).1 == KindModel::Plain(TokenKind::Eof)
            && next_token_spec(s, s.len() as int).0 == s.len(),
{
    lemma_trivia(s, i);
    lemma_trivia(s, s.len() as int);
    let j = trivia(s, i).0;
    if j < s.len() {
        let c = s[j];
        if is_ascii_digit(c) {
            lemma_read_num(s, j, j, 0);
            let d = (s[j] as u32 - 48) as int;
            lemma_read_num(s, j + 1, j, (0 * 10 + d) as u16);
        } else if c == '\'' {
            let p = j + 1;
            match at(s, p) {
                Some('\\') => {
                    let q = read_escape_spec(s, p + 1).0;
                    if at(s, q) != Some('\'') && at(s, q) != Some('\n') && q < s.len() {
                        lemma_quote_or_line_end(s, q);
                    }
                },
                Some(c2) => {
                    if c2 != '\'' && c2 != '\n' {
                        let q = p + 1;
                        if q < s.len() && at(s, q) != Some('\'') && at(s, q) != Some('\n') {
                            lemma_quote_or_line_end(s, q);
                        }
                    }
                },
                None => {},
            }
        } else if c == '\x22' {
            lemma_read_str(s, j + 1, j, Seq::empty(), Seq::empty());
        } else if unicode_alphabetic(c) || c == '_' {
            lemma_ident_end(s, j + 1);
        }
    }
}


impl Lexer {
    /// Records a diagnostic.
    pub fn emit(&mut self, d: Diag)
        requires
            old(self).wf(),
        ensures
            final(self).wf(),
            final(self).text() == old(self).text(),
            final(self).index() == old(self).index(),
            final(self).context().source == old(self).context().source,
            final(self).context().diags@ == old(self).context().diags@.push(d),
    {
        self.ctx.emit_diag(d);
    }

    /// The context, once lexing is over.
    pub fn into_ctx(self) -> (c: CompilerCtx)
        ensures
            c == self.context(),
    {
        self.ctx
    }

    /// The source file.
    pub fn source(&self) -> (r: &Rc<SourceFile>)
        ensures
            *r == self.context().source,
    {
        &self.ctx.source
    }
}

} // verus!
