//! Turning the tokens of each source line into a label and a line content.
use vstd::prelude::*;
use super::Spanned;
use super::lexer::{Token, TokenModel};
use crate::text::{chars_of, lowercase, str_eq, to_lowercase};
use crate::text::{decimal, push_decimal, string_of_chars};
use crate::boblc::archive::literalpool::push_chars;

verus! {

/// An instruction operand that may be resolved at link time.
#[derive(Debug, Clone)]
pub enum Operand {
    Imm(i64),
    Label(String),
}

pub enum OperandModel {
    Imm(i64),
    Label(Seq<char>),
}

impl View for Operand {
    type V = OperandModel;

    open spec fn view(&self) -> OperandModel {
        match self {
            Operand::Imm(i) => OperandModel::Imm(*i),
            Operand::Label(l) => OperandModel::Label(l@),
        }
    }
}

/// An instruction as written in the source.
#[derive(Debug, Clone)]
pub enum ParsedInstr {
    Nop,
    AddRR { dst: u8, src1: u8, src2: u8 },
    AddRI { dst: u8, src1: u8, imm: i64 },
    AddIpR { dst: u8, src: u8 },
    AddIpI { dst: u8, imm: i64 },
    AndRR { dst: u8, src1: u8, src2: u8 },
    AndRI { dst: u8, src1: u8, imm: i64 },
    AndIpR { dst: u8, src: u8 },
    AndIpI { dst: u8, imm: i64 },
    NotR { dst: u8, src: u8 },
    NotIp { dst: u8 },
    Ld { dst: u8, target: Operand },
    Ldi { dst: u8, target: Operand },
    Ldr { dst: u8, base: u8, imm: i64 },
    St { src: u8, target: Operand },
    Sti { src: u8, target: Operand },
    Str { src: u8, base: u8, imm: i64 },
    Br { n: bool, z: bool, p: bool, target: Operand },
    Jmp { src: u8 },
    Jsr { target: Operand },
    JsrR { src: u8 },
    Lea { dst: u8, target: Operand },
    Ret,
    Trap { vector: u8 },
}

/// The mathematical form of a [`ParsedInstr`].
pub enum InstrModel {
    Nop,
    AddRR { dst: u8, src1: u8, src2: u8 },
    AddRI { dst: u8, src1: u8, imm: i64 },
    AddIpR { dst: u8, src: u8 },
    AddIpI { dst: u8, imm: i64 },
    AndRR { dst: u8, src1: u8, src2: u8 },
    AndRI { dst: u8, src1: u8, imm: i64 },
    AndIpR { dst: u8, src: u8 },
    AndIpI { dst: u8, imm: i64 },
    NotR { dst: u8, src: u8 },
    NotIp { dst: u8 },
    Ld { dst: u8, target: OperandModel },
    Ldi { dst: u8, target: OperandModel },
    Ldr { dst: u8, base: u8, imm: i64 },
    St { src: u8, target: OperandModel },
    Sti { src: u8, target: OperandModel },
    Str { src: u8, base: u8, imm: i64 },
    Br { n: bool, z: bool, p: bool, target: OperandModel },
    Jmp { src: u8 },
    Jsr { target: OperandModel },
    JsrR { src: u8 },
    Lea { dst: u8, target: OperandModel },
    Ret,
    Trap { vector: u8 },
}

impl View for ParsedInstr {
    type V = InstrModel;

    open spec fn view(&self) -> InstrModel {
        match self {
            ParsedInstr::Nop => InstrModel::Nop,
            ParsedInstr::AddRR { dst, src1, src2 } => InstrModel::AddRR { dst: *dst, src1: *src1, src2: *src2 },
            ParsedInstr::AddRI { dst, src1, imm } => InstrModel::AddRI { dst: *dst, src1: *src1, imm: *imm },
            ParsedInstr::AddIpR { dst, src } => InstrModel::AddIpR { dst: *dst, src: *src },
            ParsedInstr::AddIpI { dst, imm } => InstrModel::AddIpI { dst: *dst, imm: *imm },
            ParsedInstr::AndRR { dst, src1, src2 } => InstrModel::AndRR { dst: *dst, src1: *src1, src2: *src2 },
            ParsedInstr::AndRI { dst, src1, imm } => InstrModel::AndRI { dst: *dst, src1: *src1, imm: *imm },
            ParsedInstr::AndIpR { dst, src } => InstrModel::AndIpR { dst: *dst, src: *src },
            ParsedInstr::AndIpI { dst, imm } => InstrModel::AndIpI { dst: *dst, imm: *imm },
            ParsedInstr::NotR { dst, src } => InstrModel::NotR { dst: *dst, src: *src },
            ParsedInstr::NotIp { dst } => InstrModel::NotIp { dst: *dst },
            ParsedInstr::Ld { dst, target } => InstrModel::Ld { dst: *dst, target: target@ },
            ParsedInstr::Ldi { dst, target } => InstrModel::Ldi { dst: *dst, target: target@ },
            ParsedInstr::Ldr { dst, base, imm } => InstrModel::Ldr { dst: *dst, base: *base, imm: *imm },
            ParsedInstr::St { src, target } => InstrModel::St { src: *src, target: target@ },
            ParsedInstr::Sti { src, target } => InstrModel::Sti { src: *src, target: target@ },
            ParsedInstr::Str { src, base, imm } => InstrModel::Str { src: *src, base: *base, imm: *imm },
            ParsedInstr::Br { n, z, p, target } => InstrModel::Br { n: *n, z: *z, p: *p, target: target@ },
            ParsedInstr::Jmp { src } => InstrModel::Jmp { src: *src },
            ParsedInstr::Jsr { target } => InstrModel::Jsr { target: target@ },
            ParsedInstr::JsrR { src } => InstrModel::JsrR { src: *src },
            ParsedInstr::Lea { dst, target } => InstrModel::Lea { dst: *dst, target: target@ },
            ParsedInstr::Ret => InstrModel::Ret,
            ParsedInstr::Trap { vector } => InstrModel::Trap { vector: *vector },
        }
    }
}

/// What a source line holds besides its label.
#[derive(Debug, Clone)]
pub enum LineContent {
    Instr(ParsedInstr),
    FillDirective(Operand),
    StringDirective(String),
    GlobalDirective(String),
}

pub enum ContentModel {
    Instr(InstrModel),
    FillDirective(OperandModel),
    StringDirective(Seq<char>),
    GlobalDirective(Seq<char>),
}

impl View for LineContent {
    type V = ContentModel;

    open spec fn view(&self) -> ContentModel {
        match self {
            LineContent::Instr(i) => ContentModel::Instr(i@),
            LineContent::FillDirective(o) => ContentModel::FillDirective(o@),
            LineContent::StringDirective(s) => ContentModel::StringDirective(s@),
            LineContent::GlobalDirective(s) => ContentModel::GlobalDirective(s@),
        }
    }
}

/// The number of words that a line content occupies in the assembled image.
pub open spec fn content_words(c: ContentModel) -> nat {
    match c {
        ContentModel::Instr(_) => 1,
        ContentModel::FillDirective(_) => 1,
        ContentModel::StringDirective(s) => s.len() + 1,
        ContentModel::GlobalDirective(_) => 0,
    }
}

impl LineContent {
    /// The number of words this content occupies: one per instruction or
    /// `.fill`, the characters and a terminating zero for `.string`, none for
    /// `.global`.
    pub fn word_count(&self) -> (n: usize)
        requires
            content_words(self@) <= usize::MAX,
        ensures
            n == content_words(self@),
    {
        match self {
            LineContent::Instr(_) => 1,
            LineContent::FillDirective(_) => 1,
            LineContent::StringDirective(s) => crate::text::chars_of(s.as_str()).len() + 1,
            LineContent::GlobalDirective(_) => 0,
        }
    }
}

/// One line of source: an optional label, optional content, and its line number.
#[derive(Debug, Clone)]
pub struct SourceLine {
    pub label: Option<String>,
    pub content: Option<LineContent>,
    pub line: usize,
}

pub struct SourceLineModel {
    pub label: Option<Seq<char>>,
    pub content: Option<ContentModel>,
    pub line: usize,
}

impl View for SourceLine {
    type V = SourceLineModel;

    open spec fn view(&self) -> SourceLineModel {
        SourceLineModel {
            label: match self.label {
                Some(l) => Some(l@),
                None => None,
            },
            content: match self.content {
                Some(c) => Some(c@),
                None => None,
            },
            line: self.line,
        }
    }
}

/// What is wrong with a source line.
#[derive(Debug)]
pub enum ParseErrorKind {
    UnexpectedEof,
    ExpectedRegister,
    ExpectedOperand,
    ExpectedImmediate,
    LabelNotAllowedHere,
    UnknownMnemonic(String),
    UnknownDirective(String),
    WrongOperandCount { mnemonic: String, got: usize },
    TrailingTokens,
}

pub enum ErrorKindModel {
    UnexpectedEof,
    ExpectedRegister,
    ExpectedOperand,
    ExpectedImmediate,
    LabelNotAllowedHere,
    UnknownMnemonic(Seq<char>),
    UnknownDirective(Seq<char>),
    WrongOperandCount { mnemonic: Seq<char>, got: usize },
    TrailingTokens,
}

impl View for ParseErrorKind {
    type V = ErrorKindModel;

    open spec fn view(&self) -> ErrorKindModel {
        match self {
            ParseErrorKind::UnexpectedEof => ErrorKindModel::UnexpectedEof,
            ParseErrorKind::ExpectedRegister => ErrorKindModel::ExpectedRegister,
            ParseErrorKind::ExpectedOperand => ErrorKindModel::ExpectedOperand,
            ParseErrorKind::ExpectedImmediate => ErrorKindModel::ExpectedImmediate,
            ParseErrorKind::LabelNotAllowedHere => ErrorKindModel::LabelNotAllowedHere,
            ParseErrorKind::UnknownMnemonic(m) => ErrorKindModel::UnknownMnemonic(m@),
            ParseErrorKind::UnknownDirective(d) => ErrorKindModel::UnknownDirective(d@),
            ParseErrorKind::WrongOperandCount { mnemonic, got } => ErrorKindModel::WrongOperandCount { mnemonic: mnemonic@, got: *got },
            ParseErrorKind::TrailingTokens => ErrorKindModel::TrailingTokens,
        }
    }
}

/// A parse error and the line it is on.
#[derive(Debug)]
pub struct ParseError {
    pub line: usize,
    pub kind: ParseErrorKind,
}

pub struct ParseErrorModel {
    pub line: usize,
    pub kind: ErrorKindModel,
}

impl View for ParseError {
    type V = ParseErrorModel;

    open spec fn view(&self) -> ParseErrorModel {
        ParseErrorModel { line: self.line, kind: self.kind@ }
    }
}


/// The tokens of a spanned token sequence, without their lines.
pub open spec fn toks(ts: Seq<Spanned<Token>>) -> Seq<TokenModel> {
    ts.map_values(|t: Spanned<Token>| t.value@)
}

/// The tokens without their commas.
pub open spec fn strip_spec(ts: Seq<TokenModel>) -> Seq<TokenModel>
    decreases ts.len(),
{
    if ts.len() == 0 {
        Seq::empty()
    } else if ts.last() is Comma {
        strip_spec(ts.drop_last())
    } else {
        strip_spec(ts.drop_last()).push(ts.last())
    }
}

/// A result whose error has been given its line.
pub open spec fn at_line<T>(r: Result<T, ErrorKindModel>, line: usize) -> Result<T, ParseErrorModel> {
    match r {
        Ok(v) => Ok(v),
        Err(kind) => Err(ParseErrorModel { line, kind }),
    }
}

/// The operand at `idx`: an immediate or a label.
pub open spec fn operand_at(ops: Seq<TokenModel>, idx: int) -> Result<OperandModel, ErrorKindModel> {
    if 0 <= idx < ops.len() {
        match ops[idx] {
            TokenModel::Immediate(n) => Ok(OperandModel::Imm(n)),
            TokenModel::Word(name) => Ok(OperandModel::Label(name)),
            _ => Err(ErrorKindModel::ExpectedOperand),
        }
    } else {
        Err(ErrorKindModel::ExpectedOperand)
    }
}

/// The register at `idx`.
pub open spec fn register_at(ops: Seq<TokenModel>, idx: int) -> Result<u8, ErrorKindModel> {
    if 0 <= idx < ops.len() {
        match ops[idx] {
            TokenModel::Register(r) => Ok(r),
            _ => Err(ErrorKindModel::ExpectedRegister),
        }
    } else {
        Err(ErrorKindModel::ExpectedRegister)
    }
}

/// The immediate at `idx`; a label there is named as the wrong kind of operand.
pub open spec fn imm_at(ops: Seq<TokenModel>, idx: int) -> Result<i64, ErrorKindModel> {
    if 0 <= idx < ops.len() {
        match ops[idx] {
            TokenModel::Immediate(n) => Ok(n),
            TokenModel::Word(_) => Err(ErrorKindModel::ExpectedImmediate),
            _ => Err(ErrorKindModel::ExpectedOperand),
        }
    } else {
        Err(ErrorKindModel::ExpectedOperand)
    }
}

/// Whether `m` is a branch mnemonic: `br` and any of the flags `n`, `z`, `p`.
pub open spec fn is_branch(m: Seq<char>) -> bool {
    &&& m.len() >= 2
    &&& m[0] == 'b'
    &&& m[1] == 'r'
    &&& forall|k: int| 2 <= k < m.len() ==> (#[trigger] m[k] == 'n' || m[k] == 'z' || m[k] == 'p')
}

/// Whether a branch mnemonic tests `flag`: it names it, or names no flag at all.
pub open spec fn branch_flag(m: Seq<char>, flag: char) -> bool {
    m.len() == 2 || exists|k: int| 2 <= k < m.len() && m[k] == flag
}

/// The wrong-count error of a mnemonic, as the programmer wrote it.
pub open spec fn wrong_count_spec(mnemonic: Seq<char>, got: nat) -> ErrorKindModel {
    ErrorKindModel::WrongOperandCount { mnemonic, got: got as usize }
}

/// An `add` or `and`, by its operand forms.
pub open spec fn arith_spec(is_add: bool, mnemonic: Seq<char>, ops: Seq<TokenModel>) -> Result<InstrModel, ErrorKindModel> {
    if ops.len() == 3 {
        match register_at(ops, 0) {
            Err(e) => Err(e),
            Ok(dst) => match register_at(ops, 1) {
                Err(e) => Err(e),
                Ok(src1) => match ops[2] {
                    TokenModel::Register(src2) => Ok(if is_add { InstrModel::AddRR { dst, src1, src2 } } else { InstrModel::AndRR { dst, src1, src2 } }),
                    TokenModel::Immediate(imm) => Ok(if is_add { InstrModel::AddRI { dst, src1, imm } } else { InstrModel::AndRI { dst, src1, imm } }),
                    _ => Err(ErrorKindModel::LabelNotAllowedHere),
                },
            },
        }
    } else if ops.len() == 2 {
        match register_at(ops, 0) {
            Err(e) => Err(e),
            Ok(dst) => match ops[1] {
                TokenModel::Register(src) => Ok(if is_add { InstrModel::AddIpR { dst, src } } else { InstrModel::AndIpR { dst, src } }),
                TokenModel::Immediate(imm) => Ok(if is_add { InstrModel::AddIpI { dst, imm } } else { InstrModel::AndIpI { dst, imm } }),
                _ => Err(ErrorKindModel::LabelNotAllowedHere),
            },
        }
    } else {
        Err(wrong_count_spec(mnemonic, ops.len()))
    }
}

/// A register and a target operand, as `ld`, `ldi`, `lea`, `st` and `sti` take them.
pub open spec fn reg_target_spec(mnemonic: Seq<char>, ops: Seq<TokenModel>) -> Result<(u8, OperandModel), ErrorKindModel> {
    if ops.len() != 2 {
        Err(wrong_count_spec(mnemonic, ops.len()))
    } else {
        match register_at(ops, 0) {
            Err(e) => Err(e),
            Ok(r) => match operand_at(ops, 1) {
                Err(e) => Err(e),
                Ok(t) => Ok((r, t)),
            },
        }
    }
}

/// Two registers and an offset, as `ldr` and `str` take them.
pub open spec fn reg_base_spec(mnemonic: Seq<char>, ops: Seq<TokenModel>) -> Result<(u8, u8, i64), ErrorKindModel> {
    if ops.len() != 3 {
        Err(wrong_count_spec(mnemonic, ops.len()))
    } else {
        match register_at(ops, 0) {
            Err(e) => Err(e),
            Ok(r) => match register_at(ops, 1) {
                Err(e) => Err(e),
                Ok(b) => match imm_at(ops, 2) {
                    Err(e) => Err(e),
                    Ok(i) => Ok((r, b, i)),
                },
            },
        }
    }
}

/// The instruction that lowercase mnemonic `m` (written `mnemonic`) and the
/// comma-free operands `ops` make.
pub open spec fn instr_spec(m: Seq<char>, mnemonic: Seq<char>, ops: Seq<TokenModel>) -> Result<InstrModel, ErrorKindModel> {
    if m == "nop"@ {
        Ok(InstrModel::Nop)
    } else if m == "ret"@ {
        Ok(InstrModel::Ret)
    } else if m == "add"@ || m == "and"@ {
        arith_spec(m == "add"@, mnemonic, ops)
    } else if m == "not"@ {
        if ops.len() == 2 {
            match register_at(ops, 0) {
                Err(e) => Err(e),
                Ok(dst) => match register_at(ops, 1) {
                    Err(e) => Err(e),
                    Ok(src) => Ok(InstrModel::NotR { dst, src }),
                },
            }
        } else if ops.len() == 1 {
            match register_at(ops, 0) {
                Err(e) => Err(e),
                Ok(dst) => Ok(InstrModel::NotIp { dst }),
            }
        } else {
            Err(wrong_count_spec(mnemonic, ops.len()))
        }
    } else if m == "ld"@ || m == "ldi"@ || m == "lea"@ {
        match reg_target_spec(mnemonic, ops) {
            Err(e) => Err(e),
            Ok((dst, target)) => Ok(if m == "ld"@ {
                InstrModel::Ld { dst, target }
            } else if m == "ldi"@ {
                InstrModel::Ldi { dst, target }
            } else {
                InstrModel::Lea { dst, target }
            }),
        }
    } else if m == "st"@ || m == "sti"@ {
        match reg_target_spec(mnemonic, ops) {
            Err(e) => Err(e),
            Ok((src, target)) => Ok(if m == "st"@ { InstrModel::St { src, target } } else { InstrModel::Sti { src, target } }),
        }
    } else if m == "ldr"@ || m == "str"@ {
        match reg_base_spec(mnemonic, ops) {
            Err(e) => Err(e),
            Ok((r, base, imm)) => Ok(if m == "ldr"@ {
                InstrModel::Ldr { dst: r, base, imm }
            } else {
                InstrModel::Str { src: r, base, imm }
            }),
        }
    } else if m == "jmp"@ {
        if ops.len() != 1 {
            Err(wrong_count_spec(mnemonic, ops.len()))
        } else {
            match register_at(ops, 0) {
                Err(e) => Err(e),
                Ok(src) => Ok(InstrModel::Jmp { src }),
            }
        }
    } else if m == "jsr"@ {
        if ops.len() != 1 {
            Err(wrong_count_spec(mnemonic, ops.len()))
        } else {
            match ops[0] {
                TokenModel::Register(r) => Ok(InstrModel::JsrR { src: r }),
                TokenModel::Immediate(n) => Ok(InstrModel::Jsr { target: OperandModel::Imm(n) }),
                TokenModel::Word(w) => Ok(InstrModel::Jsr { target: OperandModel::Label(w) }),
                _ => Err(ErrorKindModel::ExpectedOperand),
            }
        }
    } else if m == "trap"@ {
        if ops.len() != 1 {
            Err(wrong_count_spec(mnemonic, ops.len()))
        } else {
            match imm_at(ops, 0) {
                Err(e) => Err(e),
                Ok(v) => Ok(InstrModel::Trap { vector: v as u8 }),
            }
        }
    } else if is_branch(m) {
        if ops.len() != 1 {
            Err(wrong_count_spec(mnemonic, ops.len()))
        } else {
            match operand_at(ops, 0) {
                Err(e) => Err(e),
                Ok(target) => Ok(InstrModel::Br {
                    n: branch_flag(m, 'n'),
                    z: branch_flag(m, 'z'),
                    p: branch_flag(m, 'p'),
                    target,
                }),
            }
        }
    } else {
        Err(ErrorKindModel::UnknownMnemonic(m))
    }
}

/// The content of a directive line: `.fill`, `.string` or `.global` with one operand.
pub open spec fn directive_spec(name: Seq<char>, ops: Seq<TokenModel>) -> Result<ContentModel, ErrorKindModel> {
    if name == "fill"@ {
        if ops.len() != 1 {
            Err(ErrorKindModel::TrailingTokens)
        } else {
            match operand_at(ops, 0) {
                Err(e) => Err(e),
                Ok(o) => Ok(ContentModel::FillDirective(o)),
            }
        }
    } else if name == "string"@ {
        if ops.len() != 1 {
            Err(ErrorKindModel::TrailingTokens)
        } else {
            match ops[0] {
                TokenModel::StringLit(s) => Ok(ContentModel::StringDirective(s)),
                _ => Err(ErrorKindModel::ExpectedOperand),
            }
        }
    } else if name == "global"@ {
        if ops.len() != 1 {
            Err(ErrorKindModel::TrailingTokens)
        } else {
            match ops[0] {
                TokenModel::Word(w) => Ok(ContentModel::GlobalDirective(w)),
                _ => Err(ErrorKindModel::ExpectedOperand),
            }
        }
    } else {
        Err(ErrorKindModel::UnknownDirective(name))
    }
}

/// The content of a non-empty line of tokens: a directive or an instruction.
pub open spec fn content_spec(ts: Seq<TokenModel>) -> Result<ContentModel, ErrorKindModel> {
    match ts[0] {
        TokenModel::Directive(name) => directive_spec(name, strip_spec(ts.drop_first())),
        TokenModel::Word(mnemonic) => match instr_spec(lowercase(mnemonic), mnemonic, strip_spec(ts.drop_first())) {
            Err(e) => Err(e),
            Ok(i) => Ok(ContentModel::Instr(i)),
        },
        _ => Err(ErrorKindModel::UnexpectedEof),
    }
}

/// The index of the first newline at or after `i`, or the end.
pub open spec fn next_newline(ts: Seq<Spanned<Token>>, i: int) -> int
    decreases ts.len() - i,
{
    if i >= ts.len() {
        ts.len() as int
    } else if ts[i].value@ is Newline {
        i
    } else {
        next_newline(ts, i + 1)
    }
}

/// The first newline at or after `i` lies between `i` and the end, and no
/// newline comes before it.
pub proof fn lemma_next_newline(ts: Seq<Spanned<Token>>, i: int)
    requires
        0 <= i <= ts.len(),
    ensures
        i <= next_newline(ts, i) <= ts.len(),
        next_newline(ts, i) < ts.len() ==> ts[next_newline(ts, i)].value@ is Newline,
        forall|k: int| i <= k < next_newline(ts, i) ==> !(#[trigger] ts[k].value@ is Newline),
    decreases ts.len() - i,
{
    if i < ts.len() && !(ts[i].value@ is Newline) {
        lemma_next_newline(ts, i + 1);
    }
}

/// Whether the line starting at `i` opens with a label: a word and a colon.
pub open spec fn has_label(ts: Seq<Spanned<Token>>, i: int) -> bool {
    i + 1 < ts.len() && ts[i].value@ is Word && ts[i + 1].value@ is Colon
}

/// The source lines of the tokens from `i` on, or the first line's error.
pub open spec fn parse_from(ts: Seq<Spanned<Token>>, i: int) -> Result<Seq<SourceLineModel>, ParseErrorModel>
    decreases ts.len() - i,
{
    if i < 0 || i >= ts.len() {
        Ok(Seq::empty())
    } else if ts[i].value@ is Newline {
        parse_from(ts, i + 1)
    } else {
        let line = ts[i].line;
        let start = if has_label(ts, i) { i + 2 } else { i };
        let label = if has_label(ts, i) { Some(ts[i].value@->Word_0) } else { None };
        let end = next_newline(ts, start);
        let next = if end < ts.len() { end + 1 } else { end };
        let content = if end == start {
            Ok(None)
        } else {
            match content_spec(toks(ts.subrange(start, end))) {
                Ok(c) => Ok(Some(c)),
                Err(kind) => Err(ParseErrorModel { line, kind }),
            }
        };
        proof {
            lemma_next_newline(ts, start);
        }
        match content {
            Err(e) => Err(e),
            Ok(c) => match parse_from(ts, next) {
                Err(e) => Err(e),
                Ok(rest) => Ok(seq![SourceLineModel { label, content: c, line }] + rest),
            },
        }
    }
}

/// The same token, built anew.
fn copy_token(t: &Token) -> (r: Token)
    ensures
        r@ == t@,
{
    match t {
        Token::Word(s) => Token::Word(s.clone()),
        Token::Directive(s) => Token::Directive(s.clone()),
        Token::Register(r) => Token::Register(*r),
        Token::Immediate(i) => Token::Immediate(*i),
        Token::StringLit(s) => Token::StringLit(s.clone()),
        Token::Colon => Token::Colon,
        Token::Comma => Token::Comma,
        Token::Newline => Token::Newline,
    }
}

/// The tokens without their commas.
fn strip_commas(tokens: &[Spanned<Token>]) -> (r: Vec<Spanned<Token>>)
    ensures
        toks(r@) == strip_spec(toks(tokens@)),
{
    let mut out: Vec<Spanned<Token>> = Vec::new();
    let mut i: usize = 0;
    while i < tokens.len()
        invariant
            i <= tokens@.len(),
            toks(out@) == strip_spec(toks(tokens@).take(i as int)),
        decreases tokens@.len() - i,
    {
        assert(toks(tokens@).take(i + 1).drop_last() =~= toks(tokens@).take(i as int));
        assert(toks(tokens@).take(i + 1).last() == tokens@[i as int].value@);
        if !matches!(tokens[i].value, Token::Comma) {
            let t = Spanned { value: copy_token(&tokens[i].value), line: tokens[i].line };
            let ghost before = out@;
            out.push(t);
            assert(toks(out@) =~= toks(before).push(t.value@));
        }
        i += 1;
    }
    assert(toks(tokens@).take(tokens@.len() as int) =~= toks(tokens@));
    out
}

/// The operand at `idx`.
fn expect_operand(operands: &[Spanned<Token>], idx: usize, line: usize) -> (r: Result<Operand, ParseError>)
    ensures
        at_line(operand_at(toks(operands@), idx as int), line) == match r {
            Ok(o) => Ok::<OperandModel, ParseErrorModel>(o@),
            Err(e) => Err(e@),
        },
{
    if idx < operands.len() {
        match &operands[idx].value {
            Token::Immediate(n) => return Ok(Operand::Imm(*n)),
            Token::Word(name) => return Ok(Operand::Label(name.clone())),
            _ => {},
        }
    }
    Err(ParseError { line, kind: ParseErrorKind::ExpectedOperand })
}

/// The register at `idx`.
fn expect_register(operands: &[Spanned<Token>], idx: usize, line: usize) -> (r: Result<u8, ParseError>)
    ensures
        at_line(register_at(toks(operands@), idx as int), line) == match r {
            Ok(v) => Ok::<u8, ParseErrorModel>(v),
            Err(e) => Err(e@),
        },
{
    if idx < operands.len() {
        if let Token::Register(r) = &operands[idx].value {
            return Ok(*r);
        }
    }
    Err(ParseError { line, kind: ParseErrorKind::ExpectedRegister })
}

/// The immediate at `idx`.
fn expect_imm(operands: &[Spanned<Token>], idx: usize, line: usize) -> (r: Result<i64, ParseError>)
    ensures
        at_line(imm_at(toks(operands@), idx as int), line) == match r {
            Ok(v) => Ok::<i64, ParseErrorModel>(v),
            Err(e) => Err(e@),
        },
{
    if idx < operands.len() {
        match &operands[idx].value {
            Token::Immediate(n) => return Ok(*n),
            Token::Word(_) => return Err(ParseError { line, kind: ParseErrorKind::ExpectedImmediate }),
            _ => {},
        }
    }
    Err(ParseError { line, kind: ParseErrorKind::ExpectedOperand })
}

/// The error for a mnemonic given the wrong number of operands.
fn wrong_count(mnemonic: &str, got: usize, line: usize) -> (e: ParseError)
    ensures
        e@ == (ParseErrorModel { line, kind: wrong_count_spec(mnemonic@, got as nat) }),
{
    ParseError { line, kind: ParseErrorKind::WrongOperandCount { mnemonic: mnemonic.to_owned(), got } }
}


/// Whether `m` is `br` followed by any of the flags `n`, `z`, `p`; and which
/// flags the branch tests.
fn branch_flags(m: &str) -> (r: Option<(bool, bool, bool)>)
    ensures
        is_branch(m@) <==> r is Some,
        r matches Some((n, z, p)) ==> n == branch_flag(m@, 'n') && z == branch_flag(m@, 'z') && p == branch_flag(m@, 'p'),
{
    let cs = chars_of(m);
    if cs.len() < 2 || cs[0] != 'b' || cs[1] != 'r' {
        return None;
    }
    let mut n = cs.len() == 2;
    let mut z = cs.len() == 2;
    let mut p = cs.len() == 2;
    let mut k: usize = 2;
    while k < cs.len()
        invariant
            cs@ == m@,
            2 <= k <= cs@.len(),
            cs@[0] == 'b',
            cs@[1] == 'r',
            forall|j: int| 2 <= j < k ==> (#[trigger] cs@[j] == 'n' || cs@[j] == 'z' || cs@[j] == 'p'),
            n == (cs@.len() == 2 || exists|j: int| 2 <= j < k && cs@[j] == 'n'),
            z == (cs@.len() == 2 || exists|j: int| 2 <= j < k && cs@[j] == 'z'),
            p == (cs@.len() == 2 || exists|j: int| 2 <= j < k && cs@[j] == 'p'),
        decreases cs@.len() - k,
    {
        let c = cs[k];
        if c == 'n' {
            n = true;
        } else if c == 'z' {
            z = true;
        } else if c == 'p' {
            p = true;
        } else {
            return None;
        }
        k += 1;
    }
    Some((n, z, p))
}

/// The instruction that a lowercase mnemonic `m` and its operands make;
/// `mnemonic` is the mnemonic as written, which a wrong-count error names.
pub fn parse_lowered_instr(m: &str, mnemonic: &str, operands: &[Spanned<Token>], line: usize) -> (r: Result<ParsedInstr, ParseError>)
    ensures
        at_line(instr_spec(m@, mnemonic@, strip_spec(toks(operands@))), line) == match r {
            Ok(i) => Ok::<InstrModel, ParseErrorModel>(i@),
            Err(e) => Err(e@),
        },
{
    let operands = strip_commas(operands);
    let ops = operands.as_slice();
    let ghost o = toks(ops@);
    if str_eq(m, "nop") {
        Ok(ParsedInstr::Nop)
    } else if str_eq(m, "ret") {
        Ok(ParsedInstr::Ret)
    } else if str_eq(m, "add") || str_eq(m, "and") {
        let is_add = str_eq(m, "add");
        if ops.len() == 3 {
            let dst = match expect_register(ops, 0, line) { Ok(v) => v, Err(e) => return Err(e) };
            let src1 = match expect_register(ops, 1, line) { Ok(v) => v, Err(e) => return Err(e) };
            assert(o[2] == ops@[2].value@);
            match &ops[2].value {
                Token::Register(src2) => Ok(if is_add {
                    ParsedInstr::AddRR { dst, src1, src2: *src2 }
                } else {
                    ParsedInstr::AndRR { dst, src1, src2: *src2 }
                }),
                Token::Immediate(imm) => Ok(if is_add {
                    ParsedInstr::AddRI { dst, src1, imm: *imm }
                } else {
                    ParsedInstr::AndRI { dst, src1, imm: *imm }
                }),
                _ => Err(ParseError { line, kind: ParseErrorKind::LabelNotAllowedHere }),
            }
        } else if ops.len() == 2 {
            let dst = match expect_register(ops, 0, line) { Ok(v) => v, Err(e) => return Err(e) };
            assert(o[1] == ops@[1].value@);
            match &ops[1].value {
                Token::Register(src) => Ok(if is_add {
                    ParsedInstr::AddIpR { dst, src: *src }
                } else {
                    ParsedInstr::AndIpR { dst, src: *src }
                }),
                Token::Immediate(imm) => Ok(if is_add {
                    ParsedInstr::AddIpI { dst, imm: *imm }
                } else {
                    ParsedInstr::AndIpI { dst, imm: *imm }
                }),
                _ => Err(ParseError { line, kind: ParseErrorKind::LabelNotAllowedHere }),
            }
        } else {
            Err(wrong_count(mnemonic, ops.len(), line))
        }
    } else if str_eq(m, "not") {
        if ops.len() == 2 {
            let dst = match expect_register(ops, 0, line) { Ok(v) => v, Err(e) => return Err(e) };
            let src = match expect_register(ops, 1, line) { Ok(v) => v, Err(e) => return Err(e) };
            Ok(ParsedInstr::NotR { dst, src })
        } else if ops.len() == 1 {
            let dst = match expect_register(ops, 0, line) { Ok(v) => v, Err(e) => return Err(e) };
            Ok(ParsedInstr::NotIp { dst })
        } else {
            Err(wrong_count(mnemonic, ops.len(), line))
        }
    } else if str_eq(m, "ld") || str_eq(m, "ldi") || str_eq(m, "lea") {
        if ops.len() != 2 {
            return Err(wrong_count(mnemonic, ops.len(), line));
        }
        let dst = match expect_register(ops, 0, line) { Ok(v) => v, Err(e) => return Err(e) };
        let target = match expect_operand(ops, 1, line) { Ok(v) => v, Err(e) => return Err(e) };
        Ok(if str_eq(m, "ld") {
            ParsedInstr::Ld { dst, target }
        } else if str_eq(m, "ldi") {
            ParsedInstr::Ldi { dst, target }
        } else {
            ParsedInstr::Lea { dst, target }
        })
    } else if str_eq(m, "st") || str_eq(m, "sti") {
        if ops.len() != 2 {
            return Err(wrong_count(mnemonic, ops.len(), line));
        }
        let src = match expect_register(ops, 0, line) { Ok(v) => v, Err(e) => return Err(e) };
        let target = match expect_operand(ops, 1, line) { Ok(v) => v, Err(e) => return Err(e) };
        Ok(if str_eq(m, "st") { ParsedInstr::St { src, target } } else { ParsedInstr::Sti { src, target } })
    } else if str_eq(m, "ldr") || str_eq(m, "str") {
        if ops.len() != 3 {
            return Err(wrong_count(mnemonic, ops.len(), line));
        }
        let reg = match expect_register(ops, 0, line) { Ok(v) => v, Err(e) => return Err(e) };
        let base = match expect_register(ops, 1, line) { Ok(v) => v, Err(e) => return Err(e) };
        let imm = match expect_imm(ops, 2, line) { Ok(v) => v, Err(e) => return Err(e) };
        Ok(if str_eq(m, "ldr") {
            ParsedInstr::Ldr { dst: reg, base, imm }
        } else {
            ParsedInstr::Str { src: reg, base, imm }
        })
    } else if str_eq(m, "jmp") {
        if ops.len() != 1 {
            return Err(wrong_count(mnemonic, ops.len(), line));
        }
        let src = match expect_register(ops, 0, line) { Ok(v) => v, Err(e) => return Err(e) };
        Ok(ParsedInstr::Jmp { src })
    } else if str_eq(m, "jsr") {
        if ops.len() != 1 {
            return Err(wrong_count(mnemonic, ops.len(), line));
        }
        assert(o[0] == ops@[0].value@);
        match &ops[0].value {
            Token::Register(r) => Ok(ParsedInstr::JsrR { src: *r }),
            Token::Immediate(_) | Token::Word(_) => {
                let target = match expect_operand(ops, 0, line) { Ok(v) => v, Err(e) => return Err(e) };
                Ok(ParsedInstr::Jsr { target })
            }
            _ => Err(ParseError { line, kind: ParseErrorKind::ExpectedOperand }),
        }
    } else if str_eq(m, "trap") {
        if ops.len() != 1 {
            return Err(wrong_count(mnemonic, ops.len(), line));
        }
        let v = match expect_imm(ops, 0, line) { Ok(v) => v, Err(e) => return Err(e) };
        Ok(ParsedInstr::Trap { vector: v as u8 })
    } else {
        match branch_flags(m) {
            Some((n, z, p)) => {
                if ops.len() != 1 {
                    return Err(wrong_count(mnemonic, ops.len(), line));
                }
                let target = match expect_operand(ops, 0, line) { Ok(v) => v, Err(e) => return Err(e) };
                Ok(ParsedInstr::Br { n, z, p, target })
            }
            None => Err(ParseError { line, kind: ParseErrorKind::UnknownMnemonic(m.to_owned()) }),
        }
    }
}

/// The instruction that a mnemonic, in any case, and its operands make.
fn parse_instr(mnemonic: &str, operands: &[Spanned<Token>], line: usize) -> (r: Result<ParsedInstr, ParseError>)
    ensures
        at_line(instr_spec(lowercase(mnemonic@), mnemonic@, strip_spec(toks(operands@))), line) == match r {
            Ok(i) => Ok::<InstrModel, ParseErrorModel>(i@),
            Err(e) => Err(e@),
        },
{
    let m = to_lowercase(mnemonic);
    parse_lowered_instr(m.as_str(), mnemonic, operands, line)
}


/// The content of a directive line named `name` with operands `operands`.
fn parse_directive(name: &str, operands: &[Spanned<Token>], line: usize) -> (r: Result<LineContent, ParseError>)
    ensures
        at_line(directive_spec(name@, strip_spec(toks(operands@))), line) == match r {
            Ok(c) => Ok::<ContentModel, ParseErrorModel>(c@),
            Err(e) => Err(e@),
        },
{
    let operands = strip_commas(operands);
    let ops = operands.as_slice();
    if str_eq(name, "fill") {
        if ops.len() != 1 {
            return Err(ParseError { line, kind: ParseErrorKind::TrailingTokens });
        }
        let op = match expect_operand(ops, 0, line) { Ok(v) => v, Err(e) => return Err(e) };
        Ok(LineContent::FillDirective(op))
    } else if str_eq(name, "string") {
        if ops.len() != 1 {
            return Err(ParseError { line, kind: ParseErrorKind::TrailingTokens });
        }
        assert(toks(ops@)[0] == ops@[0].value@);
        match &ops[0].value {
            Token::StringLit(s) => Ok(LineContent::StringDirective(s.clone())),
            _ => Err(ParseError { line, kind: ParseErrorKind::ExpectedOperand }),
        }
    } else if str_eq(name, "global") {
        if ops.len() != 1 {
            return Err(ParseError { line, kind: ParseErrorKind::TrailingTokens });
        }
        assert(toks(ops@)[0] == ops@[0].value@);
        match &ops[0].value {
            Token::Word(w) => Ok(LineContent::GlobalDirective(w.clone())),
            _ => Err(ParseError { line, kind: ParseErrorKind::ExpectedOperand }),
        }
    } else {
        Err(ParseError { line, kind: ParseErrorKind::UnknownDirective(name.to_owned()) })
    }
}

/// The content of a non-empty line of tokens.
fn parse_content(tokens: &[Spanned<Token>], line: usize) -> (r: Result<LineContent, ParseError>)
    requires
        tokens@.len() > 0,
    ensures
        at_line(content_spec(toks(tokens@)), line) == match r {
            Ok(c) => Ok::<ContentModel, ParseErrorModel>(c@),
            Err(e) => Err(e@),
        },
{
    let rest = vstd::slice::slice_subrange(tokens, 1, tokens.len());
    assert(toks(rest@) =~= toks(tokens@).drop_first());
    assert(toks(tokens@)[0] == tokens@[0].value@);
    match &tokens[0].value {
        Token::Directive(name) => parse_directive(name.as_str(), rest, line),
        Token::Word(mnemonic) => {
            match parse_instr(mnemonic.as_str(), rest, line) {
                Ok(instr) => Ok(LineContent::Instr(instr)),
                Err(e) => Err(e),
            }
        }
        _ => Err(ParseError { line, kind: ParseErrorKind::UnexpectedEof }),
    }
}

/// The mathematical form of parsed source lines.
pub open spec fn source_lines_view(lines: Seq<SourceLine>) -> Seq<SourceLineModel> {
    lines.map_values(|l: SourceLine| l@)
}

/// Parses tokens into source lines: each line an optional `label:` and an
/// optional instruction or directive. Blank lines are skipped; the first line
/// that does not parse is the error.
pub fn parse(tokens: &[Spanned<Token>]) -> (r: Result<Vec<SourceLine>, ParseError>)
    ensures
        parse_from(tokens@, 0) == match r {
            Ok(lines) => Ok::<Seq<SourceLineModel>, ParseErrorModel>(source_lines_view(lines@)),
            Err(e) => Err(e@),
        },
{
    let mut lines: Vec<SourceLine> = Vec::new();
    let mut i: usize = 0;
    while i < tokens.len()
        invariant
            i <= tokens@.len(),
            parse_from(tokens@, 0) == match parse_from(tokens@, i as int) {
                Ok(rest) => Ok::<Seq<SourceLineModel>, ParseErrorModel>(source_lines_view(lines@) + rest),
                Err(e) => Err(e),
            },
        decreases tokens@.len() - i,
    {
        if matches!(tokens[i].value, Token::Newline) {
            i += 1;
            continue;
        }
        let ghost il: int = i as int;
        let line_no = tokens[i].line;
        let mut label: Option<String> = None;
        if let Token::Word(name) = &tokens[i].value {
            if i + 1 < tokens.len() && matches!(tokens[i + 1].value, Token::Colon) {
                label = Some(name.clone());
                i += 2;
            }
        }
        let start = i;
        assert(has_label(tokens@, il) == label is Some);
        assert(label matches Some(l) ==> l@ == tokens@[il].value@->Word_0);
        assert(start == if has_label(tokens@, il) { il + 2 } else { il });
        proof { lemma_next_newline(tokens@, start as int); }
        while i < tokens.len() && !matches!(tokens[i].value, Token::Newline)
            invariant
                start <= i <= tokens@.len(),
                next_newline(tokens@, start as int) == next_newline(tokens@, i as int),
            decreases tokens@.len() - i,
        {
            i += 1;
        }
        let line_tokens = vstd::slice::slice_subrange(tokens, start, i);
        assert(i == next_newline(tokens@, start as int));
        if i < tokens.len() {
            i += 1;
        }
        let content = if line_tokens.len() == 0 {
            None
        } else {
            match parse_content(line_tokens, line_no) {
                Ok(c) => Some(c),
                Err(e) => return Err(e),
            }
        };
        let l = SourceLine { label, content, line: line_no };
        assert(l@.label == if has_label(tokens@, il) { Some(tokens@[il].value@->Word_0) } else { None::<Seq<char>> });
        let ghost before = lines@;
        lines.push(l);
        assert(source_lines_view(lines@) =~= source_lines_view(before).push(l@));
        assert(l@.content == match content_spec(toks(tokens@.subrange(start as int, next_newline(tokens@, start as int)))) {
            Ok(c) => if next_newline(tokens@, start as int) == start { None } else { Some(c) },
            Err(_) => None,
        } || next_newline(tokens@, start as int) == start);
        assert(parse_from(tokens@, il) == match parse_from(tokens@, i as int) {
            Ok(rest) => Ok::<Seq<SourceLineModel>, ParseErrorModel>(seq![l@] + rest),
            Err(e) => Err(e),
        });
        proof {
            if let Ok(rest) = parse_from(tokens@, i as int) {
                assert(source_lines_view(lines@) + rest =~= source_lines_view(before) + (seq![l@] + rest));
            }
        }
    }
    proof {
        assert(source_lines_view(lines@) + Seq::<SourceLineModel>::empty() =~= source_lines_view(lines@));
    }
    Ok(lines)
}


/// The text of a parse error after its line number.
pub open spec fn error_kind_text(k: ErrorKindModel) -> Seq<char> {
    match k {
        ErrorKindModel::UnexpectedEof => "unexpected end of input"@,
        ErrorKindModel::ExpectedRegister => "expected a register "@ + seq!['\x28'] + "r0-r7"@ + seq!['\x29'],
        ErrorKindModel::ExpectedOperand => "expected an operand"@,
        ErrorKindModel::ExpectedImmediate => "expected an immediate value, found a label"@,
        ErrorKindModel::LabelNotAllowedHere => "a label is not valid here, expected a register or immediate"@,
        ErrorKindModel::UnknownMnemonic(m) => "unknown mnemonic "@ + seq!['\x27'] + m + seq!['\x27'],
        ErrorKindModel::UnknownDirective(d) => "unknown directive "@ + seq!['\x27', '.'] + d + seq!['\x27'],
        ErrorKindModel::WrongOperandCount { mnemonic, got } =>
            "wrong number of operands for "@ + seq!['\x27'] + mnemonic + seq!['\x27', ' ', '\x28'] + "got "@
                + decimal(got as nat) + seq!['\x29'],
        ErrorKindModel::TrailingTokens => "unexpected extra tokens at end of line"@,
    }
}

/// The text of a parse error, naming its line.
pub open spec fn parse_error_text(e: ParseErrorModel) -> Seq<char> {
    "line "@ + decimal(e.line as nat) + ": "@ + error_kind_text(e.kind)
}

impl ParseError {
    /// The text of the error, naming its line.
    pub fn message(&self) -> (s: String)
        ensures
            s@ == parse_error_text(self@),
    {
        let mut buf: Vec<char> = Vec::new();
        push_chars(&mut buf, "line ");
        push_decimal(&mut buf, self.line as u64);
        push_chars(&mut buf, ": ");
        let ghost b0 = buf@;
        match &self.kind {
            ParseErrorKind::UnexpectedEof => push_chars(&mut buf, "unexpected end of input"),
            ParseErrorKind::ExpectedRegister => {
                push_chars(&mut buf, "expected a register ");
                buf.push('\x28');
                push_chars(&mut buf, "r0-r7");
                buf.push('\x29');
            },
            ParseErrorKind::ExpectedOperand => push_chars(&mut buf, "expected an operand"),
            ParseErrorKind::ExpectedImmediate => push_chars(&mut buf, "expected an immediate value, found a label"),
            ParseErrorKind::LabelNotAllowedHere =>
                push_chars(&mut buf, "a label is not valid here, expected a register or immediate"),
            ParseErrorKind::UnknownMnemonic(m) => {
                push_chars(&mut buf, "unknown mnemonic ");
                buf.push('\x27');
                push_chars(&mut buf, m.as_str());
                buf.push('\x27');
            },
            ParseErrorKind::UnknownDirective(d) => {
                push_chars(&mut buf, "unknown directive ");
                buf.push('\x27');
                buf.push('.');
                push_chars(&mut buf, d.as_str());
                buf.push('\x27');
            },
            ParseErrorKind::WrongOperandCount { mnemonic, got } => {
                push_chars(&mut buf, "wrong number of operands for ");
                buf.push('\x27');
                push_chars(&mut buf, mnemonic.as_str());
                buf.push('\x27');
                buf.push(' ');
                buf.push('\x28');
                push_chars(&mut buf, "got ");
                push_decimal(&mut buf, *got as u64);
                buf.push('\x29');
            },
            ParseErrorKind::TrailingTokens => push_chars(&mut buf, "unexpected extra tokens at end of line"),
        }
        assert(buf@ =~= b0 + error_kind_text(self.kind@));
        let s = string_of_chars(buf.as_slice());
        assert(s@ =~= parse_error_text(self@));
        s
    }
}

/// What a branch tests: every branch the assembler accepts tests at least one
/// condition code, so none is never taken; `br` alone tests all three, an
/// unconditional branch; a branch that names flags tests exactly those.
pub proof fn lemma_branch_tests(m: Seq<char>, mnemonic: Seq<char>, ops: Seq<TokenModel>)
    ensures
        instr_spec(m, mnemonic, ops) matches Ok(InstrModel::Br { n, z, p, .. }) ==> {
            &&& n || z || p
            &&& m.len() == 2 ==> n && z && p
            &&& m.len() > 2 ==> (n <==> m.subrange(2, m.len() as int).contains('n'))
            &&& m.len() > 2 ==> (z <==> m.subrange(2, m.len() as int).contains('z'))
            &&& m.len() > 2 ==> (p <==> m.subrange(2, m.len() as int).contains('p'))
        },
{
    if let Ok(InstrModel::Br { n, z, p, .. }) = instr_spec(m, mnemonic, ops) {
        assert(is_branch(m));
        assert(n == branch_flag(m, 'n') && z == branch_flag(m, 'z') && p == branch_flag(m, 'p'));
        let t = m.subrange(2, m.len() as int);
        if m.len() > 2 {
            assert(t[0] == m[2]);
            assert(m[2] == 'n' || m[2] == 'z' || m[2] == 'p');
            assert(t.contains('n') <==> branch_flag(m, 'n')) by {
                if branch_flag(m, 'n') {
                    let k = choose|k: int| 2 <= k < m.len() && m[k] == 'n';
                    assert(t[k - 2] == 'n');
                }
                if t.contains('n') {
                    let k = choose|k: int| 0 <= k < t.len() && t[k] == 'n';
                    assert(m[k + 2] == 'n');
                }
            }
            assert(t.contains('z') <==> branch_flag(m, 'z')) by {
                if branch_flag(m, 'z') {
                    let k = choose|k: int| 2 <= k < m.len() && m[k] == 'z';
                    assert(t[k - 2] == 'z');
                }
                if t.contains('z') {
                    let k = choose|k: int| 0 <= k < t.len() && t[k] == 'z';
                    assert(m[k + 2] == 'z');
                }
            }
            assert(t.contains('p') <==> branch_flag(m, 'p')) by {
                if branch_flag(m, 'p') {
                    let k = choose|k: int| 2 <= k < m.len() && m[k] == 'p';
                    assert(t[k - 2] == 'p');
                }
                if t.contains('p') {
                    let k = choose|k: int| 0 <= k < t.len() && t[k] == 'p';
                    assert(m[k + 2] == 'p');
                }
            }
        }
    }
}

} // verus!
