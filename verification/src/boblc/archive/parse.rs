//! Parsing archive words into includes and functions.
use vstd::prelude::*;
use super::lex::Token;
use crate::text::{chars_of, parse_int, parse_int_spec, str_eq, string_of_chars};
use crate::text::{decimal, i64_decimal, push_decimal, signed_decimal};
use super::literalpool::{push_char_vec, push_chars};

verus! {

/// Why archive words do not form a program.
#[derive(Debug)]
pub enum ParseError {
    UnexpectedToken { expected: Option<&'static str>, got: Token },
    UnexpectedEOF { expected: &'static str, last_line: usize },
}

/// The mathematical form of a [`ParseError`].
pub enum ParseErrorModel {
    UnexpectedToken { expected: Option<Seq<char>>, got: (Seq<char>, usize) },
    UnexpectedEOF { expected: Seq<char>, last_line: usize },
}

impl View for ParseError {
    type V = ParseErrorModel;

    open spec fn view(&self) -> ParseErrorModel {
        match self {
            ParseError::UnexpectedToken { expected, got } => ParseErrorModel::UnexpectedToken {
                expected: match expected {
                    Some(e) => Some(e@),
                    None => None,
                },
                got: (got.val@, got.line),
            },
            ParseError::UnexpectedEOF { expected, last_line } => ParseErrorModel::UnexpectedEOF {
                expected: expected@,
                last_line: *last_line,
            },
        }
    }
}

/// A parsed program: the files it includes and its functions.
#[derive(Debug)]
pub struct Program {
    pub includes: Vec<String>,
    pub functions: Vec<FunctionDecl>,
}

/// A function: declared external, or defined by its words.
#[derive(Debug)]
pub enum FunctionDecl {
    External { name: String },
    Defined { name: String, body: Vec<Word> },
}

/// A word of a function body. The control words carry the index they jump
/// to, which [`crate::boblc::archive::resolve_links::resolve_links`] fills in.
#[derive(Debug, Clone)]
pub enum Word {
    PushInt(i64),
    PushString(String),
    Drop,
    Add,
    AddInt(i64),
    AddStr(String),
    And,
    AndInt(i64),
    AndStr(String),
    Not,
    NotInt(i64),
    NotStr(String),
    Dup,
    TwoDup,
    Swap,
    Rot,
    Dr,
    Rd,
    While,
    If(usize),
    Else(usize),
    Do(usize),
    End(Option<usize>),
    Trap1,
    Trap2,
    Call(String),
}

/// The mathematical form of a [`Word`].
pub enum WordModel {
    PushInt(i64),
    PushString(Seq<char>),
    Drop,
    Add,
    AddInt(i64),
    AddStr(Seq<char>),
    And,
    AndInt(i64),
    AndStr(Seq<char>),
    Not,
    NotInt(i64),
    NotStr(Seq<char>),
    Dup,
    TwoDup,
    Swap,
    Rot,
    Dr,
    Rd,
    While,
    If(usize),
    Else(usize),
    Do(usize),
    End(Option<usize>),
    Trap1,
    Trap2,
    Call(Seq<char>),
}

impl View for Word {
    type V = WordModel;

    open spec fn view(&self) -> WordModel {
        match self {
            Word::PushInt(v) => WordModel::PushInt(*v),
            Word::PushString(s) => WordModel::PushString(s@),
            Word::Drop => WordModel::Drop,
            Word::Add => WordModel::Add,
            Word::AddInt(v) => WordModel::AddInt(*v),
            Word::AddStr(s) => WordModel::AddStr(s@),
            Word::And => WordModel::And,
            Word::AndInt(v) => WordModel::AndInt(*v),
            Word::AndStr(s) => WordModel::AndStr(s@),
            Word::Not => WordModel::Not,
            Word::NotInt(v) => WordModel::NotInt(*v),
            Word::NotStr(s) => WordModel::NotStr(s@),
            Word::Dup => WordModel::Dup,
            Word::TwoDup => WordModel::TwoDup,
            Word::Swap => WordModel::Swap,
            Word::Rot => WordModel::Rot,
            Word::Dr => WordModel::Dr,
            Word::Rd => WordModel::Rd,
            Word::While => WordModel::While,
            Word::If(t) => WordModel::If(*t),
            Word::Else(t) => WordModel::Else(*t),
            Word::Do(t) => WordModel::Do(*t),
            Word::End(t) => WordModel::End(*t),
            Word::Trap1 => WordModel::Trap1,
            Word::Trap2 => WordModel::Trap2,
            Word::Call(s) => WordModel::Call(s@),
        }
    }
}

/// The mathematical form of a [`FunctionDecl`].
pub enum FunctionModel {
    External { name: Seq<char> },
    Defined { name: Seq<char>, body: Seq<WordModel> },
}

/// The mathematical form of a list of words.
pub open spec fn words_view(ws: Seq<Word>) -> Seq<WordModel> {
    ws.map_values(|w: Word| w@)
}

impl View for FunctionDecl {
    type V = FunctionModel;

    open spec fn view(&self) -> FunctionModel {
        match self {
            FunctionDecl::External { name } => FunctionModel::External { name: name@ },
            FunctionDecl::Defined { name, body } => FunctionModel::Defined { name: name@, body: words_view(body@) },
        }
    }
}

/// The mathematical form of a [`Program`]: its includes and functions.
#[verifier::ext_equal]
pub struct ProgramModel {
    pub includes: Seq<Seq<char>>,
    pub functions: Seq<FunctionModel>,
}

impl View for Program {
    type V = ProgramModel;

    open spec fn view(&self) -> ProgramModel {
        ProgramModel {
            includes: self.includes@.map_values(|s: String| s@),
            functions: self.functions@.map_values(|f: FunctionDecl| f@),
        }
    }
}

/// Whether a word is a string literal: a quote at each end.
pub open spec fn is_quoted(s: Seq<char>) -> bool {
    s.len() >= 1 && s[0] == '"' && s[s.len() - 1] == '"'
}

/// The word that a token denotes: a builtin by name, a string literal, a
/// decimal integer, or else a call of the function it names. Control words
/// jump to index 0 until their links are resolved.
pub open spec fn word_of(s: Seq<char>) -> WordModel {
    if s == "drop"@ {
        WordModel::Drop
    } else if s == "add"@ {
        WordModel::Add
    } else if s == "and"@ {
        WordModel::And
    } else if s == "not"@ {
        WordModel::Not
    } else if s == "dup"@ {
        WordModel::Dup
    } else if s == "2dup"@ {
        WordModel::TwoDup
    } else if s == "swap"@ {
        WordModel::Swap
    } else if s == "rot"@ {
        WordModel::Rot
    } else if s == "dr"@ {
        WordModel::Dr
    } else if s == "rd"@ {
        WordModel::Rd
    } else if s == "while"@ {
        WordModel::While
    } else if s == "if"@ {
        WordModel::If(0)
    } else if s == "else"@ {
        WordModel::Else(0)
    } else if s == "do"@ {
        WordModel::Do(0)
    } else if s == "end"@ {
        WordModel::End(None)
    } else if s == "trap1"@ {
        WordModel::Trap1
    } else if s == "trap2"@ {
        WordModel::Trap2
    } else if is_quoted(s) {
        WordModel::PushString(s.subrange(1, s.len() - 1))
    } else {
        match parse_int_spec(s, 10) {
            Some(n) => WordModel::PushInt(n),
            None => WordModel::Call(s),
        }
    }
}

/// The texts of the tokens.
pub open spec fn vals(ts: Seq<Token>) -> Seq<Seq<char>> {
    ts.map_values(|t: Token| t.val@)
}

/// The line of the last token, or 0 without tokens.
pub open spec fn last_line(ts: Seq<Token>) -> usize {
    if ts.len() == 0 { 0 } else { ts.last().line }
}

/// The end of input, where `expected` was expected.
pub open spec fn eof(ts: Seq<Token>, expected: Seq<char>) -> ParseErrorModel {
    ParseErrorModel::UnexpectedEOF { expected, last_line: last_line(ts) }
}

/// The words of a function body from `pos` on, `depth` blocks deep, up to the
/// `end` that closes the function; and the position after it.
pub open spec fn body_spec(ts: Seq<Token>, pos: int, depth: nat) -> Result<(Seq<WordModel>, int), ParseErrorModel>
    decreases ts.len() - pos,
{
    if pos < 0 || pos >= ts.len() {
        Err(eof(ts, "end"@))
    } else {
        let t = ts[pos].val@;
        if t == "end"@ && depth == 1 {
            Ok((Seq::empty(), pos + 1))
        } else {
            let d = if t == "end"@ { (depth - 1) as nat } else if t == "if"@ || t == "do"@ { depth + 1 } else { depth };
            match body_spec(ts, pos + 1, d) {
                Ok((ws, next)) => Ok((seq![word_of(t)] + ws, next)),
                Err(e) => Err(e),
            }
        }
    }
}

/// The function declared at `pos` (`func ext name` or `func name ... end`),
/// and the position after it.
pub open spec fn func_spec(ts: Seq<Token>, pos: int) -> Result<(FunctionModel, int), ParseErrorModel> {
    if pos >= ts.len() {
        Err(eof(ts, "func"@))
    } else if ts[pos].val@ != "func"@ {
        Err(ParseErrorModel::UnexpectedToken { expected: Some("func"@), got: (ts[pos].val@, ts[pos].line) })
    } else if pos + 1 < ts.len() && ts[pos + 1].val@ == "ext"@ {
        if pos + 2 < ts.len() {
            Ok((FunctionModel::External { name: ts[pos + 2].val@ }, pos + 3))
        } else {
            Err(eof(ts, "a word"@))
        }
    } else if pos + 1 < ts.len() {
        match body_spec(ts, pos + 2, 1) {
            Ok((body, next)) => Ok((FunctionModel::Defined { name: ts[pos + 1].val@, body }, next)),
            Err(e) => Err(e),
        }
    } else {
        Err(eof(ts, "a word"@))
    }
}

/// The file named by the `include "file"` at `pos`, and the position after it.
pub open spec fn include_spec(ts: Seq<Token>, pos: int) -> Result<(Seq<char>, int), ParseErrorModel> {
    if pos >= ts.len() {
        Err(eof(ts, "include"@))
    } else if ts[pos].val@ != "include"@ {
        Err(ParseErrorModel::UnexpectedToken { expected: Some("include"@), got: (ts[pos].val@, ts[pos].line) })
    } else if pos + 1 >= ts.len() {
        Err(eof(ts, "a string"@))
    } else if is_quoted(ts[pos + 1].val@) {
        Ok((ts[pos + 1].val@.subrange(1, ts[pos + 1].val@.len() - 1), pos + 2))
    } else {
        Err(ParseErrorModel::UnexpectedToken { expected: Some("a string"@), got: (ts[pos + 1].val@, ts[pos + 1].line) })
    }
}

/// A function body ends after where it starts, within the tokens.
pub proof fn lemma_body_advances(ts: Seq<Token>, pos: int, depth: nat)
    ensures
        body_spec(ts, pos, depth) matches Ok((_, next)) ==> pos < next <= ts.len(),
    decreases ts.len() - pos,
{
    if 0 <= pos < ts.len() {
        let t = ts[pos].val@;
        let d = if t == "end"@ { (depth - 1) as nat } else if t == "if"@ || t == "do"@ { depth + 1 } else { depth };
        lemma_body_advances(ts, pos + 1, d);
    }
}

/// A declaration ends after where it starts, within the tokens.
pub proof fn lemma_func_advances(ts: Seq<Token>, pos: int)
    requires
        0 <= pos,
    ensures
        func_spec(ts, pos) matches Ok((_, next)) ==> pos < next <= ts.len(),
        include_spec(ts, pos) matches Ok((_, next)) ==> pos < next <= ts.len(),
{
    lemma_body_advances(ts, pos + 2, 1);
}

/// The program of the tokens from `pos` on, after `prog` has been read.
pub open spec fn program_spec(ts: Seq<Token>, pos: int, prog: ProgramModel) -> Result<ProgramModel, ParseErrorModel>
    decreases ts.len() - pos,
{
    if pos < 0 || pos >= ts.len() {
        Ok(prog)
    } else {
        proof {
            lemma_func_advances(ts, pos);
        }
        if ts[pos].val@ == "include"@ {
            match include_spec(ts, pos) {
                Ok((file, next)) => program_spec(ts, next, ProgramModel { includes: prog.includes.push(file), ..prog }),
                Err(e) => Err(e),
            }
        } else if ts[pos].val@ == "func"@ {
            match func_spec(ts, pos) {
                Ok((f, next)) => program_spec(ts, next, ProgramModel { functions: prog.functions.push(f), ..prog }),
                Err(e) => Err(e),
            }
        } else {
            Err(ParseErrorModel::UnexpectedToken { expected: Some("func or include"@), got: (ts[pos].val@, ts[pos].line) })
        }
    }
}

/// No token is a lone quote, which a string literal cannot be.
pub open spec fn no_lone_quote(ts: Seq<Token>) -> bool {
    forall|k: int| 0 <= k < ts.len() ==> #[trigger] ts[k].val@ != seq!['"']
}


/// The same token, built anew.
fn copy_token(t: &Token) -> (r: Token)
    ensures
        r.val@ == t.val@,
        r.line == t.line,
{
    Token { val: t.val.clone(), line: t.line }
}

/// The line of the last token, or 0.
fn last_line_of(tokens: &[Token]) -> (l: usize)
    ensures
        l == last_line(tokens@),
{
    if tokens.len() == 0 { 0 } else { tokens[tokens.len() - 1].line }
}

/// Whether a token is a string literal: a quote at each end.
fn is_push_string_token(token: &str) -> (b: bool)
    ensures
        b == is_quoted(token@),
{
    let cs = chars_of(token);
    cs.len() >= 1 && cs[0] == '"' && cs[cs.len() - 1] == '"'
}

/// The word that a token denotes.
fn token2word(token: &str) -> (w: Word)
    requires
        token@ != seq!['"'],
    ensures
        w@ == word_of(token@),
{
    if str_eq(token, "drop") {
        Word::Drop
    } else if str_eq(token, "add") {
        Word::Add
    } else if str_eq(token, "and") {
        Word::And
    } else if str_eq(token, "not") {
        Word::Not
    } else if str_eq(token, "dup") {
        Word::Dup
    } else if str_eq(token, "2dup") {
        Word::TwoDup
    } else if str_eq(token, "swap") {
        Word::Swap
    } else if str_eq(token, "rot") {
        Word::Rot
    } else if str_eq(token, "dr") {
        Word::Dr
    } else if str_eq(token, "rd") {
        Word::Rd
    } else if str_eq(token, "while") {
        Word::While
    } else if str_eq(token, "if") {
        Word::If(0)
    } else if str_eq(token, "else") {
        Word::Else(0)
    } else if str_eq(token, "do") {
        Word::Do(0)
    } else if str_eq(token, "end") {
        Word::End(None)
    } else if str_eq(token, "trap1") {
        Word::Trap1
    } else if str_eq(token, "trap2") {
        Word::Trap2
    } else if is_push_string_token(token) {
        let cs = chars_of(token);
        if cs.len() < 2 {
            assert(cs@ =~= seq!['"']);
        }
        let inner = vstd::slice::slice_subrange(cs.as_slice(), 1, cs.len() - 1);
        Word::PushString(string_of_chars(inner))
    } else {
        let cs = chars_of(token);
        match parse_int(cs.as_slice(), 10) {
            Some(n) => Word::PushInt(n),
            None => Word::Call(token.to_owned()),
        }
    }
}

/// Consumes the token `token` at `*pos`.
fn eat(tokens: &[Token], token: &'static str, pos: &mut usize) -> (r: Result<(), ParseError>)
    ensures
        match r {
            Ok(()) => *old(pos) < tokens@.len() && tokens@[*old(pos) as int].val@ == token@ && *final(pos) == *old(pos) + 1,
            Err(e) => *final(pos) == *old(pos) && e@ == if *old(pos) < tokens@.len() {
                ParseErrorModel::UnexpectedToken {
                    expected: Some(token@),
                    got: (tokens@[*old(pos) as int].val@, tokens@[*old(pos) as int].line),
                }
            } else {
                eof(tokens@, token@)
            },
        },
        (*old(pos) < tokens@.len() && tokens@[*old(pos) as int].val@ == token@) ==> r is Ok,
{
    if *pos < tokens.len() {
        if str_eq(tokens[*pos].val.as_str(), token) {
            *pos = *pos + 1;
            Ok(())
        } else {
            Err(ParseError::UnexpectedToken { expected: Some(token), got: copy_token(&tokens[*pos]) })
        }
    } else {
        Err(ParseError::UnexpectedEOF { expected: token, last_line: last_line_of(tokens) })
    }
}

/// Consumes the string literal at `*pos` and gives its text without quotes.
fn eat_string(tokens: &[Token], pos: &mut usize) -> (r: Result<String, ParseError>)
    requires
        no_lone_quote(tokens@),
    ensures
        match r {
            Ok(s) => *old(pos) < tokens@.len() && is_quoted(tokens@[*old(pos) as int].val@)
                && s@ == tokens@[*old(pos) as int].val@.subrange(1, tokens@[*old(pos) as int].val@.len() - 1)
                && *final(pos) == *old(pos) + 1,
            Err(e) => *final(pos) == *old(pos) && e@ == if *old(pos) < tokens@.len() {
                ParseErrorModel::UnexpectedToken {
                    expected: Some("a string"@),
                    got: (tokens@[*old(pos) as int].val@, tokens@[*old(pos) as int].line),
                }
            } else {
                eof(tokens@, "a string"@)
            },
        },
        (*old(pos) < tokens@.len() && is_quoted(tokens@[*old(pos) as int].val@)) ==> r is Ok,
{
    if *pos < tokens.len() {
        let t = &tokens[*pos];
        if is_push_string_token(t.val.as_str()) {
            let cs = chars_of(t.val.as_str());
            assert(t.val@ != seq!['"']);
            if cs.len() < 2 {
                assert(cs@ =~= seq!['"']);
            }
            let inner = vstd::slice::slice_subrange(cs.as_slice(), 1, cs.len() - 1);
            *pos = *pos + 1;
            Ok(string_of_chars(inner))
        } else {
            Err(ParseError::UnexpectedToken { expected: Some("a string"), got: copy_token(t) })
        }
    } else {
        Err(ParseError::UnexpectedEOF { expected: "a string", last_line: last_line_of(tokens) })
    }
}

/// Consumes the token at `*pos` and gives its text.
fn next(tokens: &[Token], pos: &mut usize) -> (r: Result<String, ParseError>)
    ensures
        match r {
            Ok(s) => *old(pos) < tokens@.len() && s@ == tokens@[*old(pos) as int].val@ && *final(pos) == *old(pos) + 1,
            Err(e) => *old(pos) >= tokens@.len() && *final(pos) == *old(pos) && e@ == eof(tokens@, "a word"@),
        },
{
    if *pos < tokens.len() {
        let v = tokens[*pos].val.clone();
        *pos = *pos + 1;
        Ok(v)
    } else {
        Err(ParseError::UnexpectedEOF { expected: "a word", last_line: last_line_of(tokens) })
    }
}

/// Consumes the token at `*pos` if it is `token`.
fn matches(tokens: &[Token], token: &str, pos: &mut usize) -> (b: bool)
    ensures
        b == (*old(pos) < tokens@.len() && tokens@[*old(pos) as int].val@ == token@),
        *final(pos) == if b { *old(pos) + 1 } else { *old(pos) as int },
{
    if *pos < tokens.len() && str_eq(tokens[*pos].val.as_str(), token) {
        *pos = *pos + 1;
        true
    } else {
        false
    }
}

/// Parses `include "file"` at `*pos`.
fn parse_include(tokens: &[Token], pos: &mut usize) -> (r: Result<String, ParseError>)
    requires
        no_lone_quote(tokens@),
    ensures
        match include_spec(tokens@, *old(pos) as int) {
            Ok((file, next)) => r matches Ok(s) && s@ == file && *final(pos) == next,
            Err(e) => r matches Err(err) && err@ == e,
        },
{
    match eat(tokens, "include", pos) {
        Ok(()) => {},
        Err(e) => return Err(e),
    }
    eat_string(tokens, pos)
}

/// Parses a function declaration at `*pos`.
fn parse_func(tokens: &[Token], pos: &mut usize) -> (r: Result<FunctionDecl, ParseError>)
    requires
        no_lone_quote(tokens@),
        tokens@.len() < usize::MAX,
    ensures
        match func_spec(tokens@, *old(pos) as int) {
            Ok((f, next)) => r matches Ok(d) && d@ == f && *final(pos) == next,
            Err(e) => r matches Err(err) && err@ == e,
        },
{
    let ghost p0 = *pos as int;
    match eat(tokens, "func", pos) {
        Ok(()) => {},
        Err(e) => return Err(e),
    }
    if matches(tokens, "ext", pos) {
        match next(tokens, pos) {
            Ok(name) => Ok(FunctionDecl::External { name }),
            Err(e) => Err(e),
        }
    } else {
        let name = match next(tokens, pos) {
            Ok(n) => n,
            Err(e) => return Err(e),
        };
        let mut body: Vec<Word> = Vec::new();
        let mut s: usize = 1;
        assert(words_view(body@) + Seq::<WordModel>::empty() =~= Seq::<WordModel>::empty());
        loop
            invariant_except_break
                body_spec(tokens@, p0 + 2, 1) == match body_spec(tokens@, *pos as int, s as nat) {
                    Ok((ws, n)) => Ok::<(Seq<WordModel>, int), ParseErrorModel>((words_view(body@) + ws, n)),
                    Err(e) => Err(e),
                },
            invariant
                no_lone_quote(tokens@),
                tokens@.len() < usize::MAX,
                func_spec(tokens@, p0) == match body_spec(tokens@, p0 + 2, 1) {
                    Ok((ws, n)) => Ok::<(FunctionModel, int), ParseErrorModel>((FunctionModel::Defined { name: name@, body: ws }, n)),
                    Err(e) => Err(e),
                },
                p0 + 2 <= *pos <= tokens@.len(),
                p0 == *old(pos),
                1 <= s <= *pos + 1,
            ensures
                body_spec(tokens@, p0 + 2, 1) == Ok::<(Seq<WordModel>, int), ParseErrorModel>((words_view(body@), *pos as int)),
            decreases tokens@.len() - *pos,
        {
            let ghost pk = *pos as int;
            let ghost s0 = s as nat;
            let t = match next(tokens, pos) {
                Ok(t) => t,
                Err(_) => {
                    return Err(ParseError::UnexpectedEOF { expected: "end", last_line: last_line_of(tokens) });
                }
            };
            assert(t@ == tokens@[pk].val@);
            if str_eq(t.as_str(), "end") {
                if s == 1 {
                    assert(words_view(body@) + Seq::<WordModel>::empty() =~= words_view(body@));
                    break;
                }
                s = s - 1;
            } else if str_eq(t.as_str(), "if") || str_eq(t.as_str(), "do") {
                s = s + 1;
            }
            let w = token2word(t.as_str());
            let ghost before = body@;
            body.push(w);
            proof {
                assert(words_view(body@) =~= words_view(before).push(w@));
                assert(body_spec(tokens@, pk, s0) == match body_spec(tokens@, pk + 1, s as nat) {
                    Ok((ws, n)) => Ok::<(Seq<WordModel>, int), ParseErrorModel>((seq![w@] + ws, n)),
                    Err(e) => Err(e),
                });
                if let Ok((ws, n)) = body_spec(tokens@, *pos as int, s as nat) {
                    assert(words_view(before) + (seq![w@] + ws) =~= words_view(body@) + ws);
                }
            }
        }
        Ok(FunctionDecl::Defined { name, body })
    }
}

/// Parses archive words into a program: `include "file"` lines and function
/// declarations, in order; anything else is an error.
pub fn parse(tokens: &[Token]) -> (r: Result<Program, ParseError>)
    requires
        no_lone_quote(tokens@),
        tokens@.len() < usize::MAX,
    ensures
        program_spec(tokens@, 0, ProgramModel { includes: Seq::empty(), functions: Seq::empty() }) == match r {
            Ok(p) => Ok::<ProgramModel, ParseErrorModel>(p@),
            Err(e) => Err(e@),
        },
{
    let mut pos: usize = 0;
    let mut program = Program { includes: Vec::new(), functions: Vec::new() };
    assert(program@ =~= (ProgramModel { includes: Seq::empty(), functions: Seq::empty() }));
    while pos < tokens.len()
        invariant
            no_lone_quote(tokens@),
            tokens@.len() < usize::MAX,
            pos <= tokens@.len(),
            program_spec(tokens@, 0, ProgramModel { includes: Seq::empty(), functions: Seq::empty() })
                == program_spec(tokens@, pos as int, program@),
        decreases tokens@.len() - pos,
    {
        proof { lemma_func_advances(tokens@, pos as int); }
        let ghost p0 = program@;
        if str_eq(tokens[pos].val.as_str(), "include") {
            match parse_include(tokens, &mut pos) {
                Ok(file) => {
                    let ghost fv = file@;
                    program.includes.push(file);
                    assert(program@ =~= ProgramModel { includes: p0.includes.push(fv), ..p0 });
                }
                Err(e) => return Err(e),
            }
        } else if str_eq(tokens[pos].val.as_str(), "func") {
            match parse_func(tokens, &mut pos) {
                Ok(f) => {
                    let ghost fv = f@;
                    program.functions.push(f);
                    assert(program@ =~= ProgramModel { functions: p0.functions.push(fv), ..p0 });
                }
                Err(e) => return Err(e),
            }
        } else {
            return Err(ParseError::UnexpectedToken { expected: Some("func or include"), got: copy_token(&tokens[pos]) });
        }
    }
    Ok(program)
}


/// The text of a parse error, naming its line.
pub open spec fn parse_error_text(e: ParseErrorModel) -> Seq<char> {
    match e {
        ParseErrorModel::UnexpectedToken { expected, got } => match expected {
            Some(x) => "line "@ + decimal(got.1 as nat) + ": expected "@ + x + " but got `"@ + got.0 + "`"@,
            None => "line "@ + decimal(got.1 as nat) + ": unexpected `"@ + got.0 + "`"@,
        },
        ParseErrorModel::UnexpectedEOF { expected, last_line } =>
            "line "@ + decimal(last_line as nat) + ": expected "@ + expected + " but got EOF"@,
    }
}

impl ParseError {
    /// The text of the error, naming its line.
    pub fn message(&self) -> (s: String)
        ensures
            s@ == parse_error_text(self@),
    {
        let mut buf: Vec<char> = Vec::new();
        match self {
            ParseError::UnexpectedToken { expected, got } => {
                push_chars(&mut buf, "line ");
                push_decimal(&mut buf, got.line as u64);
                match expected {
                    Some(x) => {
                        push_chars(&mut buf, ": expected ");
                        push_chars(&mut buf, x);
                        push_chars(&mut buf, " but got `");
                    },
                    None => push_chars(&mut buf, ": unexpected `"),
                }
                push_chars(&mut buf, got.val.as_str());
                push_chars(&mut buf, "`");
            },
            ParseError::UnexpectedEOF { expected, last_line } => {
                push_chars(&mut buf, "line ");
                push_decimal(&mut buf, *last_line as u64);
                push_chars(&mut buf, ": expected ");
                push_chars(&mut buf, expected);
                push_chars(&mut buf, " but got EOF");
            },
        }
        let s = string_of_chars(buf.as_slice());
        assert(s@ =~= parse_error_text(self@));
        s
    }
}


/// How a character of a string literal is written back: a newline or tab as a
/// doubled backslash and a letter, a backslash doubled, a quote after a
/// backslash.
pub open spec fn escape_word_char(c: char) -> Seq<char> {
    if c == '\n' {
        seq!['\x5c', '\x5c', 'n']
    } else if c == '\t' {
        seq!['\x5c', '\x5c', 't']
    } else if c == '\x5c' {
        seq!['\x5c', '\x5c']
    } else if c == '\x22' {
        seq!['\x5c', '\x22']
    } else {
        seq![c]
    }
}

/// A string's characters, each written back.
pub open spec fn escape_word(s: Seq<char>) -> Seq<char>
    decreases s.len(),
{
    if s.len() == 0 { Seq::empty() } else { escape_word(s.drop_last()) + escape_word_char(s.last()) }
}

/// A string literal written back between quotes, then `after`.
pub open spec fn str_lit_text(s: Seq<char>, after: Seq<char>) -> Seq<char> {
    seq!['\x22'] + escape_word(s) + seq!['\x22'] + after
}

/// How a word is written: its numbers in decimal, its strings as literals,
/// the operations by their names, a call by the function's name.
pub open spec fn word_text(w: WordModel) -> Seq<char> {
    match w {
        WordModel::PushInt(v) => signed_decimal(v as int),
        WordModel::PushString(s) => str_lit_text(s, Seq::empty()),
        WordModel::AddInt(v) => signed_decimal(v as int) + " add"@,
        WordModel::AddStr(s) => str_lit_text(s, " add"@),
        WordModel::AndInt(v) => signed_decimal(v as int) + " and"@,
        WordModel::AndStr(s) => str_lit_text(s, " and"@),
        WordModel::NotInt(v) => signed_decimal(v as int) + " not"@,
        WordModel::NotStr(s) => str_lit_text(s, " not"@),
        WordModel::If(_) => "if"@,
        WordModel::Else(_) => "else"@,
        WordModel::Do(_) => "do"@,
        WordModel::End(_) => "end"@,
        WordModel::Call(f) => f,
        WordModel::Drop => "drop"@,
        WordModel::Add => "add"@,
        WordModel::And => "and"@,
        WordModel::Not => "not"@,
        WordModel::Dup => "dup"@,
        WordModel::TwoDup => "2dup"@,
        WordModel::Swap => "swap"@,
        WordModel::Rot => "rot"@,
        WordModel::Dr => "dr"@,
        WordModel::Rd => "rd"@,
        WordModel::While => "while"@,
        WordModel::Trap1 => "trap1"@,
        WordModel::Trap2 => "trap2"@,
    }
}

/// Appends a string literal written back between quotes, then `after`.
fn push_str_lit(buf: &mut Vec<char>, s: &str, after: &str)
    ensures
        final(buf)@ == old(buf)@ + str_lit_text(s@, after@),
{
    let cs = chars_of(s);
    let ghost b0 = buf@;
    buf.push('\x22');
    let mut k: usize = 0;
    assert(cs@.take(0) =~= Seq::<char>::empty());
    while k < cs.len()
        invariant
            cs@ == s@,
            k <= cs@.len(),
            buf@ == b0 + seq!['\x22'] + escape_word(cs@.take(k as int)),
        decreases cs@.len() - k,
    {
        let c = cs[k];
        if c == '\n' {
            buf.push('\x5c');
            buf.push('\x5c');
            buf.push('n');
        } else if c == '\t' {
            buf.push('\x5c');
            buf.push('\x5c');
            buf.push('t');
        } else if c == '\x5c' {
            buf.push('\x5c');
            buf.push('\x5c');
        } else if c == '\x22' {
            buf.push('\x5c');
            buf.push('\x22');
        } else {
            buf.push(c);
        }
        proof {
            assert(cs@.take(k + 1).drop_last() =~= cs@.take(k as int));
            assert(buf@ =~= b0 + seq!['\x22'] + escape_word(cs@.take(k + 1)));
        }
        k += 1;
    }
    assert(cs@.take(cs@.len() as int) =~= cs@);
    buf.push('\x22');
    push_chars(buf, after);
    assert(buf@ =~= b0 + str_lit_text(s@, after@));
}

/// Appends the decimal numeral of a signed number, then `after`.
fn push_signed(buf: &mut Vec<char>, v: i64, after: &str)
    ensures
        final(buf)@ == old(buf)@ + signed_decimal(v as int) + after@,
{
    let d = i64_decimal(v);
    push_char_vec(buf, &d);
    push_chars(buf, after);
}

impl Word {
    /// How the word is written: its numbers in decimal, its strings as
    /// literals, the operations by their names, a call by the function's name.
    pub fn to_text(&self) -> (s: String)
        ensures
            s@ == word_text(self@),
    {
        let mut buf: Vec<char> = Vec::new();
        match self {
            Word::PushInt(v) => push_signed(&mut buf, *v, ""),
            Word::PushString(s) => push_str_lit(&mut buf, s.as_str(), ""),
            Word::AddInt(v) => push_signed(&mut buf, *v, " add"),
            Word::AddStr(s) => push_str_lit(&mut buf, s.as_str(), " add"),
            Word::AndInt(v) => push_signed(&mut buf, *v, " and"),
            Word::AndStr(s) => push_str_lit(&mut buf, s.as_str(), " and"),
            Word::NotInt(v) => push_signed(&mut buf, *v, " not"),
            Word::NotStr(s) => push_str_lit(&mut buf, s.as_str(), " not"),
            Word::If(_) => push_chars(&mut buf, "if"),
            Word::Else(_) => push_chars(&mut buf, "else"),
            Word::Do(_) => push_chars(&mut buf, "do"),
            Word::End(_) => push_chars(&mut buf, "end"),
            Word::Call(f) => push_chars(&mut buf, f.as_str()),
            Word::Drop => push_chars(&mut buf, "drop"),
            Word::Add => push_chars(&mut buf, "add"),
            Word::And => push_chars(&mut buf, "and"),
            Word::Not => push_chars(&mut buf, "not"),
            Word::Dup => push_chars(&mut buf, "dup"),
            Word::TwoDup => push_chars(&mut buf, "2dup"),
            Word::Swap => push_chars(&mut buf, "swap"),
            Word::Rot => push_chars(&mut buf, "rot"),
            Word::Dr => push_chars(&mut buf, "dr"),
            Word::Rd => push_chars(&mut buf, "rd"),
            Word::While => push_chars(&mut buf, "while"),
            Word::Trap1 => push_chars(&mut buf, "trap1"),
            Word::Trap2 => push_chars(&mut buf, "trap2"),
        }
        proof { reveal_strlit(""); }
        let s = string_of_chars(buf.as_slice());
        assert(s@ =~= word_text(self@));
        s
    }
}

} // verus!
