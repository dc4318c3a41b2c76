//! Splitting bassembly text into tokens.
use vstd::prelude::*;
use super::Spanned;
use crate::boblc::archive::literalpool::push_chars;
use crate::text::{decimal, push_decimal};
use crate::text::{
    all_digits, chars_of, is_alphabetic, is_alphanumeric, is_whitespace, lowercase, parse_int, parse_int_spec,
    string_of_chars, to_lowercase, unicode_alphabetic, unicode_alphanumeric, unicode_whitespace,
};

verus! {

/// A token of bassembly.
#[derive(Debug, Clone, PartialEq)]
pub enum Token {
    Word(String),
    Directive(String),
    Register(u8),
    Immediate(i64),
    StringLit(String),
    Colon,
    Comma,
    Newline,
}

/// The mathematical form of a [`Token`].
pub enum TokenModel {
    Word(Seq<char>),
    Directive(Seq<char>),
    Register(u8),
    Immediate(i64),
    StringLit(Seq<char>),
    Colon,
    Comma,
    Newline,
}

impl View for Token {
    type V = TokenModel;

    open spec fn view(&self) -> TokenModel {
        match self {
            Token::Word(s) => TokenModel::Word(s@),
            Token::Directive(s) => TokenModel::Directive(s@),
            Token::Register(r) => TokenModel::Register(*r),
            Token::Immediate(i) => TokenModel::Immediate(*i),
            Token::StringLit(s) => TokenModel::StringLit(s@),
            Token::Colon => TokenModel::Colon,
            Token::Comma => TokenModel::Comma,
            Token::Newline => TokenModel::Newline,
        }
    }
}

/// Why text is not bassembly.
#[derive(Debug)]
pub enum LexError {
    UnterminatedString { line: usize },
    InvalidNumber { text: String, line: usize },
    UnexpectedChar { ch: char, line: usize },
}


/// The mathematical form of a [`LexError`].
pub enum LexErrorModel {
    UnterminatedString { line: usize },
    InvalidNumber { text: Seq<char>, line: usize },
    UnexpectedChar { ch: char, line: usize },
}

impl View for LexError {
    type V = LexErrorModel;

    open spec fn view(&self) -> LexErrorModel {
        match self {
            LexError::UnterminatedString { line } => LexErrorModel::UnterminatedString { line: *line },
            LexError::InvalidNumber { text, line } => LexErrorModel::InvalidNumber { text: text@, line: *line },
            LexError::UnexpectedChar { ch, line } => LexErrorModel::UnexpectedChar { ch: *ch, line: *line },
        }
    }
}

/// A character that continues a word or directive name.
pub open spec fn is_word_char(c: char) -> bool {
    unicode_alphanumeric(c) || c == '_'
}

/// An ASCII decimal digit.
pub open spec fn is_ascii_digit(c: char) -> bool {
    '0' <= c <= '9'
}

/// An ASCII hexadecimal digit.
pub open spec fn is_ascii_hexdigit(c: char) -> bool {
    ('0' <= c <= '9') || ('a' <= c <= 'f') || ('A' <= c <= 'F')
}

/// Where a comment starting at `i` ends: at the next newline, or the end.
pub open spec fn comment_end(cs: Seq<char>, i: int) -> int
    decreases cs.len() - i,
{
    if i < 0 || i >= cs.len() || cs[i] == '\n' {
        i
    } else {
        comment_end(cs, i + 1)
    }
}

/// Where a word or directive name continuing at `i` ends.
pub open spec fn word_end(cs: Seq<char>, i: int) -> int
    decreases cs.len() - i,
{
    if i < 0 || i >= cs.len() || !is_word_char(cs[i]) {
        i
    } else {
        word_end(cs, i + 1)
    }
}

/// Where the digits of a number continuing at `i` end: hex digits and underscores.
pub open spec fn number_end(cs: Seq<char>, i: int) -> int
    decreases cs.len() - i,
{
    if i < 0 || i >= cs.len() || !(is_ascii_hexdigit(cs[i]) || cs[i] == '_') {
        i
    } else {
        number_end(cs, i + 1)
    }
}

/// Each scan ends at or after where it starts, and within the text; the
/// characters it passes over are of its kind.
pub proof fn lemma_scans(cs: Seq<char>, i: int)
    requires
        0 <= i <= cs.len(),
    ensures
        i <= comment_end(cs, i) <= cs.len(),
        i <= word_end(cs, i) <= cs.len(),
        i <= number_end(cs, i) <= cs.len(),
        forall|k: int| i <= k < word_end(cs, i) ==> is_word_char(#[trigger] cs[k]),
        forall|k: int| i <= k < number_end(cs, i) ==> (is_ascii_hexdigit(#[trigger] cs[k]) || cs[k] == '_'),
    decreases cs.len() - i,
{
    if i < cs.len() {
        lemma_scans(cs, i + 1);
    }
}

/// The character that an escape `\c` in a string stands for.
pub open spec fn escaped(c: char) -> char {
    if c == 'n' {
        '\n'
    } else if c == 't' {
        '\t'
    } else {
        c
    }
}

/// The body of a string literal whose opening quote ends before `i`, and the
/// index after its closing quote; `None` where a newline or the end comes first.
pub open spec fn scan_string(cs: Seq<char>, i: int) -> Option<(Seq<char>, int)>
    decreases cs.len() - i,
{
    if i < 0 || i >= cs.len() || cs[i] == '\n' {
        None
    } else if cs[i] == '"' {
        Some((Seq::empty(), i + 1))
    } else if cs[i] == '\\' {
        if i + 1 >= cs.len() {
            None
        } else {
            match scan_string(cs, i + 2) {
                Some((s, j)) => Some((seq![escaped(cs[i + 1])] + s, j)),
                None => None,
            }
        }
    } else {
        match scan_string(cs, i + 1) {
            Some((s, j)) => Some((seq![cs[i]] + s, j)),
            None => None,
        }
    }
}

pub proof fn lemma_scan_string(cs: Seq<char>, i: int)
    requires
        0 <= i,
    ensures
        scan_string(cs, i) matches Some((_, j)) ==> i < j <= cs.len(),
    decreases cs.len() - i,
{
    if 0 <= i < cs.len() && cs[i] != '\n' && cs[i] != '"' {
        if cs[i] == '\\' {
            if i + 1 < cs.len() {
                lemma_scan_string(cs, i + 2);
            }
        } else {
            lemma_scan_string(cs, i + 1);
        }
    }
}

/// The characters without their underscores.
pub open spec fn drop_underscores(s: Seq<char>) -> Seq<char>
    decreases s.len(),
{
    if s.len() == 0 {
        s
    } else if s.last() == '_' {
        drop_underscores(s.drop_last())
    } else {
        drop_underscores(s.drop_last()).push(s.last())
    }
}

/// `str::trim_start_matches` with one character: every leading copy removed.
pub open spec fn trim_start_char(s: Seq<char>, c: char) -> Seq<char>
    decreases s.len(),
{
    if s.len() > 0 && s[0] == c {
        trim_start_char(s.drop_first(), c)
    } else {
        s
    }
}

/// `str::trim_start_matches("0x")`: every leading `0x` removed.
pub open spec fn trim_start_0x(s: Seq<char>) -> Seq<char>
    decreases s.len(),
{
    if s.len() >= 2 && s[0] == '0' && s[1] == 'x' {
        trim_start_0x(s.skip(2))
    } else {
        s
    }
}

/// The register that a word names: `r` or `R` and a digit from 0 to 7.
pub open spec fn register_spec(w: Seq<char>) -> Option<u8> {
    if w.len() == 2 && (w[0] == 'r' || w[0] == 'R') && '0' <= w[1] <= '7' {
        Some((w[1] as u32 - '0' as u32) as u8)
    } else {
        None
    }
}

/// Where a numeric literal starting at `i` begins its digits, whether it is
/// hexadecimal, and the text it is read from.
pub open spec fn number_head(cs: Seq<char>, i: int) -> (int, bool, Seq<char>) {
    let neg = cs[i] == '-';
    let k0 = if neg { i + 1 } else { i };
    let sign = if neg { seq!['-'] } else { Seq::<char>::empty() };
    if k0 < cs.len() && cs[k0] == '0' {
        if k0 + 1 < cs.len() && (cs[k0 + 1] == 'x' || cs[k0 + 1] == 'X') {
            (k0 + 2, true, sign + seq!['0', cs[k0 + 1]])
        } else {
            (k0 + 1, false, sign + seq!['0'])
        }
    } else {
        (k0, false, sign)
    }
}

/// The numeric literal at `i`: its value and the index after it, or the error
/// naming its text. A hexadecimal literal is read without its sign and then negated.
pub open spec fn number_spec(cs: Seq<char>, i: int, line: usize) -> Result<(i64, int), LexErrorModel> {
    let (k, is_hex, head) = number_head(cs, i);
    let e = number_end(cs, k);
    let text = head + drop_underscores(cs.subrange(k, e));
    let parsed = if is_hex { parse_int_spec(trim_start_0x(trim_start_char(text, '-')), 16) } else { parse_int_spec(text, 10) };
    match parsed {
        None => Err(LexErrorModel::InvalidNumber { text, line }),
        Some(v) => Ok((if is_hex && cs[i] == '-' { (-v) as i64 } else { v }, e)),
    }
}

/// What the scan of one position of the source yields.
pub enum LexStep {
    /// Nothing; go on at the index.
    Skip(int),
    /// A token; go on at the index.
    Emit(TokenModel, int),
    /// An error.
    Fail(LexErrorModel),
}

/// The step of the lexer at index `i` on line `line`.
pub open spec fn lex_step(cs: Seq<char>, i: int, line: usize) -> LexStep {
    let c = cs[i];
    if c == '\n' {
        LexStep::Emit(TokenModel::Newline, i + 1)
    } else if unicode_whitespace(c) {
        LexStep::Skip(i + 1)
    } else if c == ';' {
        LexStep::Skip(comment_end(cs, i))
    } else if c == ',' {
        LexStep::Emit(TokenModel::Comma, i + 1)
    } else if c == ':' {
        LexStep::Emit(TokenModel::Colon, i + 1)
    } else if c == '"' {
        match scan_string(cs, i + 1) {
            Some((s, j)) => LexStep::Emit(TokenModel::StringLit(s), j),
            None => LexStep::Fail(LexErrorModel::UnterminatedString { line }),
        }
    } else if c == '.' {
        let e = word_end(cs, i + 1);
        LexStep::Emit(TokenModel::Directive(lowercase(cs.subrange(i + 1, e))), e)
    } else if is_ascii_digit(c) || (c == '-' && i + 1 < cs.len() && is_ascii_digit(cs[i + 1])) {
        match number_spec(cs, i, line) {
            Err(e) => LexStep::Fail(e),
            Ok((v, e)) => LexStep::Emit(TokenModel::Immediate(v), e),
        }
    } else if unicode_alphabetic(c) || c == '_' {
        let e = word_end(cs, i + 1);
        let w = cs.subrange(i, e);
        match register_spec(w) {
            Some(r) => LexStep::Emit(TokenModel::Register(r), e),
            None => LexStep::Emit(TokenModel::Word(w), e),
        }
    } else {
        LexStep::Fail(LexErrorModel::UnexpectedChar { ch: c, line })
    }
}

pub proof fn lemma_lex_step_advances(cs: Seq<char>, i: int, line: usize)
    requires
        0 <= i < cs.len(),
    ensures
        lex_step(cs, i, line) matches LexStep::Skip(j) ==> i < j <= cs.len(),
        lex_step(cs, i, line) matches LexStep::Emit(_, j) ==> i < j <= cs.len(),
{
    lemma_scans(cs, i);
    lemma_scans(cs, i + 1);
    lemma_scan_string(cs, i + 1);
    if is_ascii_digit(cs[i]) || (cs[i] == '-' && i + 1 < cs.len() && is_ascii_digit(cs[i + 1])) {
        let (k, _, _) = number_head(cs, i);
        lemma_scans(cs, k);
    }
}

/// The tokens of `cs` from index `i` on, each with its line, or the first error.
pub open spec fn lex_from(cs: Seq<char>, i: int, line: usize) -> Result<Seq<(TokenModel, usize)>, LexErrorModel>
    decreases cs.len() - i,
{
    if i < 0 || i >= cs.len() {
        Ok(Seq::empty())
    } else {
        proof {
            lemma_lex_step_advances(cs, i, line);
        }
        match lex_step(cs, i, line) {
            LexStep::Skip(j) => lex_from(cs, j, line),
            LexStep::Emit(t, j) => match lex_from(cs, j, if t is Newline { (line + 1) as usize } else { line }) {
                Ok(rest) => Ok(seq![(t, line)] + rest),
                Err(e) => Err(e),
            },
            LexStep::Fail(e) => Err(e),
        }
    }
}

/// The tokens of a lexed source, each with its line.
pub open spec fn spanned_tokens(ts: Seq<Spanned<Token>>) -> Seq<(TokenModel, usize)> {
    ts.map_values(|t: Spanned<Token>| (t.value@, t.line))
}


/// Whether `c` is an ASCII decimal digit.
fn ascii_digit(c: char) -> (r: bool)
    ensures
        r == is_ascii_digit(c),
{
    '0' <= c && c <= '9'
}

/// Whether `c` is an ASCII hexadecimal digit.
fn ascii_hexdigit(c: char) -> (r: bool)
    ensures
        r == is_ascii_hexdigit(c),
{
    ('0' <= c && c <= '9') || ('a' <= c && c <= 'f') || ('A' <= c && c <= 'F')
}

/// Whether the character after `i` is an ASCII digit.
fn peek_is_digit(cs: &Vec<char>, i: usize) -> (r: bool)
    ensures
        r == (i + 1 < cs@.len() && is_ascii_digit(cs@[i + 1])),
{
    cs.len() > 0 && i < cs.len() - 1 && ascii_digit(cs[i + 1])
}

/// The register that a word names: `r` or `R` and a digit from 0 to 7.
fn parse_register(word: &str) -> (r: Option<u8>)
    ensures
        r == register_spec(word@),
{
    let cs = chars_of(word);
    if cs.len() != 2 {
        return None;
    }
    let r = cs[0];
    if r != 'r' && r != 'R' {
        return None;
    }
    let digit = cs[1];
    if '0' <= digit && digit <= '7' {
        Some(((digit as u32) - ('0' as u32)) as u8)
    } else {
        None
    }
}

/// The end of a comment starting at `i`.
fn scan_comment(cs: &Vec<char>, i: usize) -> (e: usize)
    requires
        i <= cs@.len(),
    ensures
        e == comment_end(cs@, i as int),
{
    let mut k = i;
    while k < cs.len() && cs[k] != '\n'
        invariant
            i <= k <= cs@.len(),
            comment_end(cs@, i as int) == comment_end(cs@, k as int),
        decreases cs@.len() - k,
    {
        k += 1;
    }
    k
}

/// The end of a word or directive name continuing at `i`.
fn scan_word(cs: &Vec<char>, i: usize) -> (e: usize)
    requires
        i <= cs@.len(),
    ensures
        e == word_end(cs@, i as int),
{
    let mut k = i;
    while k < cs.len() && (is_alphanumeric(cs[k]) || cs[k] == '_')
        invariant
            i <= k <= cs@.len(),
            word_end(cs@, i as int) == word_end(cs@, k as int),
        decreases cs@.len() - k,
    {
        k += 1;
    }
    k
}

/// The body of a string literal whose opening quote ends before `i`, and the
/// index after its closing quote.
fn lex_string(cs: &Vec<char>, i: usize) -> (r: Option<(Vec<char>, usize)>)
    requires
        i <= cs@.len(),
    ensures
        match scan_string(cs@, i as int) {
            Some((s, j)) => r matches Some((v, e)) && v@ == s && e == j,
            None => r is None,
        },
{
    let mut acc: Vec<char> = Vec::new();
    let mut k = i;
    loop
        invariant
            i <= k,
            scan_string(cs@, i as int) == match scan_string(cs@, k as int) {
                Some((s, j)) => Some((acc@ + s, j)),
                None => None::<(Seq<char>, int)>,
            },
        decreases cs@.len() - k,
    {
        if k >= cs.len() || cs[k] == '\n' {
            return None;
        }
        let c = cs[k];
        if c == '"' {
            assert(acc@ + Seq::<char>::empty() =~= acc@);
            return Some((acc, k + 1));
        }
        if c == '\\' {
            if k + 1 >= cs.len() {
                return None;
            }
            let d = cs[k + 1];
            let e = if d == 'n' { '\n' } else if d == 't' { '\t' } else { d };
            let ghost before = acc@;
            acc.push(e);
            proof {
                if let Some((s, j)) = scan_string(cs@, k + 2) {
                    assert(before + (seq![e] + s) =~= acc@ + s);
                }
            }
            k += 2;
        } else {
            let ghost before = acc@;
            acc.push(c);
            proof {
                if let Some((s, j)) = scan_string(cs@, k + 1) {
                    assert(before + (seq![c] + s) =~= acc@ + s);
                }
            }
            k += 1;
        }
    }
}

/// The index after every leading `c` of `s`.
fn skip_leading(s: &Vec<char>, c: char) -> (k: usize)
    ensures
        k <= s@.len(),
        s@.skip(k as int) == trim_start_char(s@, c),
{
    let mut k: usize = 0;
    assert(s@.skip(0) =~= s@);
    while k < s.len() && s[k] == c
        invariant
            k <= s@.len(),
            trim_start_char(s@, c) == trim_start_char(s@.skip(k as int), c),
        decreases s@.len() - k,
    {
        assert(s@.skip(k as int).drop_first() =~= s@.skip(k + 1));
        k += 1;
    }
    k
}

/// The index after every leading `0x` of `s` from `from` on.
fn skip_0x(s: &Vec<char>, from: usize) -> (k: usize)
    requires
        from <= s@.len(),
    ensures
        from <= k <= s@.len(),
        s@.skip(k as int) == trim_start_0x(s@.skip(from as int)),
{
    let mut k: usize = from;
    while s.len() > 1 && k < s.len() - 1 && s[k] == '0' && s[k + 1] == 'x'
        invariant
            from <= k <= s@.len(),
            trim_start_0x(s@.skip(from as int)) == trim_start_0x(s@.skip(k as int)),
        decreases s@.len() - k,
    {
        assert(s@.skip(k as int).skip(2) =~= s@.skip(k + 2));
        k += 2;
    }
    k
}

/// The numeric literal at `i`: its value and the index after it, or the
/// error naming its text.
fn lex_number(cs: &Vec<char>, i: usize, line: usize) -> (r: Result<(i64, usize), LexError>)
    requires
        i < cs@.len(),
        is_ascii_digit(cs@[i as int]) || (cs@[i as int] == '-' && i + 1 < cs@.len() && is_ascii_digit(cs@[i + 1])),
    ensures
        number_spec(cs@, i as int, line) == match r {
            Ok((w, j)) => Ok::<(i64, int), LexErrorModel>((w, j as int)),
            Err(e) => Err(e@),
        },
{
    let ghost (k0, hx, head) = number_head(cs@, i as int);
    let n = cs.len();
    let neg = cs[i] == '-';
    let mut text: Vec<char> = Vec::new();
    let mut k = i;
    if neg {
        text.push('-');
        k += 1;
    }
    let mut is_hex = false;
    if k < cs.len() && cs[k] == '0' {
        text.push('0');
        k += 1;
        if k < cs.len() && (cs[k] == 'x' || cs[k] == 'X') {
            is_hex = true;
            text.push(cs[k]);
            k += 1;
        }
    }
    assert(text@ =~= head);
    assert(k == k0 && is_hex == hx);
    let start = k;
    assert(cs@.subrange(start as int, start as int) =~= Seq::<char>::empty());
    assert(head + drop_underscores(Seq::<char>::empty()) =~= head);
    proof { lemma_scans(cs@, start as int); }
    while k < cs.len() && (ascii_hexdigit(cs[k]) || cs[k] == '_')
        invariant
            start <= k <= cs@.len(),
            number_end(cs@, start as int) == number_end(cs@, k as int),
            text@ == head + drop_underscores(cs@.subrange(start as int, k as int)),
        decreases cs@.len() - k,
    {
        assert(cs@.subrange(start as int, k + 1).drop_last() =~= cs@.subrange(start as int, k as int));
        if cs[k] != '_' {
            let ghost before = text@;
            text.push(cs[k]);
            assert(text@ =~= head + drop_underscores(cs@.subrange(start as int, k + 1)));
        }
        k += 1;
    }
    let parsed = if is_hex {
        let a = skip_leading(&text, '-');
        let b = skip_0x(&text, a);
        let digits = vstd::slice::slice_subrange(text.as_slice(), b, text.len());
        assert(digits@ =~= text@.skip(b as int));
        parse_int(digits, 16)
    } else {
        parse_int(text.as_slice(), 10)
    };
    match parsed {
        None => {
            let t = string_of_chars(text.as_slice());
            Err(LexError::InvalidNumber { text: t, line })
        }
        Some(v) => {
            if is_hex && neg {
                let w = if v == i64::MIN { v } else { -v };
                assert(w == (-v) as i64) by (bit_vector)
                    requires w == (if v == i64::MIN { v } else { (-v) as i64 });
                Ok((w, k))
            } else {
                Ok((v, k))
            }
        }
    }
}


/// Splits bassembly text into tokens, each with its line: newlines, commas,
/// colons, string literals with their escapes, `.directives` (lowercased),
/// numbers in decimal or `0x` hexadecimal with `_` separators, registers
/// `r0`-`r7`, and words. Whitespace and `;` comments are skipped.
pub fn lex(src: &str) -> (r: Result<Vec<Spanned<Token>>, LexError>)
    requires
        src@.len() < usize::MAX,
    ensures
        lex_from(src@, 0, 1) == match r {
            Ok(ts) => Ok::<Seq<(TokenModel, usize)>, LexErrorModel>(spanned_tokens(ts@)),
            Err(e) => Err(e@),
        },
{
    let cs = chars_of(src);
    let n = cs.len();
    let mut tokens: Vec<Spanned<Token>> = Vec::new();
    let mut line: usize = 1;
    let mut i: usize = 0;
    while i < n
        invariant
            cs@ == src@,
            n == cs@.len(),
            n < usize::MAX,
            i <= n,
            1 <= line <= i + 1,
            lex_from(cs@, 0, 1) == match lex_from(cs@, i as int, line) {
                Ok(rest) => Ok::<Seq<(TokenModel, usize)>, LexErrorModel>(spanned_tokens(tokens@) + rest),
                Err(e) => Err(e),
            },
        decreases n - i,
    {
        let ghost ts0 = tokens@;
        let ghost i0 = i as int;
        let ghost line0 = line;
        proof { lemma_lex_step_advances(cs@, i as int, line); }
        let c = cs[i];
        let mut emitted: Option<Token> = None;
        let next: usize;
        if c == '\n' {
            emitted = Some(Token::Newline);
            next = i + 1;
        } else if is_whitespace(c) {
            next = i + 1;
        } else if c == ';' {
            next = scan_comment(&cs, i);
        } else if c == ',' {
            emitted = Some(Token::Comma);
            next = i + 1;
        } else if c == ':' {
            emitted = Some(Token::Colon);
            next = i + 1;
        } else if c == '"' {
            match lex_string(&cs, i + 1) {
                Some((body, j)) => {
                    emitted = Some(Token::StringLit(string_of_chars(body.as_slice())));
                    next = j;
                }
                None => return Err(LexError::UnterminatedString { line }),
            }
        } else if c == '.' {
            let e = scan_word(&cs, i + 1);
            let name = string_of_chars(vstd::slice::slice_subrange(cs.as_slice(), i + 1, e));
            emitted = Some(Token::Directive(to_lowercase(name.as_str())));
            next = e;
        } else if ascii_digit(c) || (c == '-' && peek_is_digit(&cs, i)) {
            match lex_number(&cs, i, line) {
                Ok((v, j)) => {
                    emitted = Some(Token::Immediate(v));
                    next = j;
                }
                Err(e) => return Err(e),
            }
        } else if is_alphabetic(c) || c == '_' {
            let e = scan_word(&cs, i);
            assert(word_end(cs@, i as int) == word_end(cs@, i + 1));
            let word = string_of_chars(vstd::slice::slice_subrange(cs.as_slice(), i, e));
            match parse_register(word.as_str()) {
                Some(reg) => emitted = Some(Token::Register(reg)),
                None => emitted = Some(Token::Word(word)),
            }
            next = e;
        } else {
            return Err(LexError::UnexpectedChar { ch: c, line });
        }
        match emitted {
            Some(t) => {
                assert(lex_step(cs@, i0, line0) == LexStep::Emit(t@, next as int));
                let is_newline = matches!(t, Token::Newline);
                tokens.push(Spanned { value: t, line });
                assert(spanned_tokens(tokens@) =~= spanned_tokens(ts0).push((t@, line0)));
                if is_newline {
                    line = line + 1;
                }
                proof {
                    if let Ok(rest) = lex_from(cs@, next as int, line) {
                        assert(spanned_tokens(ts0) + (seq![(t@, line0)] + rest) =~= spanned_tokens(tokens@) + rest);
                    }
                }
            }
            None => {
                assert(lex_step(cs@, i0, line0) == LexStep::Skip(next as int));
            }
        }
        i = next;
    }
    assert(spanned_tokens(tokens@) + Seq::<(TokenModel, usize)>::empty() =~= spanned_tokens(tokens@));
    Ok(tokens)
}


/// The text of a lexing error, naming its line.
pub open spec fn lex_error_text(e: LexErrorModel) -> Seq<char> {
    match e {
        LexErrorModel::UnterminatedString { line } =>
            "line "@ + decimal(line as nat) + ": unterminated string literal"@,
        LexErrorModel::InvalidNumber { text, line } =>
            "line "@ + decimal(line as nat) + ": invalid numeric literal "@ + seq!['\x27'] + text + seq!['\x27'],
        LexErrorModel::UnexpectedChar { ch, line } =>
            "line "@ + decimal(line as nat) + ": unexpected character "@ + seq!['\x27', ch, '\x27'],
    }
}

impl LexError {
    /// The text of the error, naming its line.
    pub fn message(&self) -> (s: String)
        ensures
            s@ == lex_error_text(self@),
    {
        let mut buf: Vec<char> = Vec::new();
        match self {
            LexError::UnterminatedString { line } => {
                push_chars(&mut buf, "line ");
                push_decimal(&mut buf, *line as u64);
                push_chars(&mut buf, ": unterminated string literal");
            },
            LexError::InvalidNumber { text, line } => {
                push_chars(&mut buf, "line ");
                push_decimal(&mut buf, *line as u64);
                push_chars(&mut buf, ": invalid numeric literal ");
                buf.push('\x27');
                push_chars(&mut buf, text.as_str());
                buf.push('\x27');
            },
            LexError::UnexpectedChar { ch, line } => {
                push_chars(&mut buf, "line ");
                push_decimal(&mut buf, *line as u64);
                push_chars(&mut buf, ": unexpected character ");
                buf.push('\x27');
                buf.push(*ch);
                buf.push('\x27');
            },
        }
        let s = string_of_chars(buf.as_slice());
        assert(s@ =~= lex_error_text(self@));
        s
    }
}

} // verus!
