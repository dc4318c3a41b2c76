//! The parser of the Bob language: items, statements, expressions and types
//! from the lexer's tokens, with diagnostics for what does not fit.
use std::rc::Rc;
use vstd::prelude::*;
use super::ast::{AsmItem, AsmOperand, Expr, ExprKind, Item, ItemKind, LValue, Register, Stmt, StmtKind};
use super::diag::{diag_view, diags_view, error_at, CompilerCtx, Diag, DiagModel};
use super::grammar::{
    args_loop, atom_spec, binary_loop, binary_spec, char_spec, expr_spec, expr_view, exprs_view, grouped_spec,
    ident_or_path_spec, int_spec, lval_view, lvalue_spec, path_loop, postfix_loop, postfix_spec, prefix_spec,
    segs_view, str_spec, tok_binary_op, tok_unary_op, ExprKindM, ExprM, LValueM,
};
use super::grammar::{
    asm_binding_spec, asm_item_spec, asm_item_view, asm_items_loop, asm_items_view, asm_operand_spec, asm_spec,
    block_spec, expr_stmt_spec, if_spec, let_spec, operands_loop, operands_view, opt_expr_view, opt_ty_view,
    return_spec, stmt_spec, stmt_view, stmts_loop, stmts_view, while_spec, AsmItemM, AsmKindM, StmtKindM, StmtM,
};
use super::ast::register_named;
use super::lexer::{kind_view, lemma_next_token_progress, next_token_spec, KindModel, Lexer, Token, TokenKind};
use super::op::{BinaryOp, UnaryOp};
use super::source::{SourceFile, Span, Spanned};
use super::ty::{tys_model, ty_model, Ty, TyModel};
use crate::text::str_eq;

verus! {

/// A parser reading tokens from a lexer, one token ahead.
pub struct Parser {
    lexer: Lexer,
    current: Token,
}

/// Whether a token is the end of the file.
pub open spec fn is_eof(t: Token) -> bool {
    t.inner is Eof
}

/// Where a parser stands, as a model: the current token's kind and span,
/// the characters the lexer has read, and the diagnostics so far.
pub struct PState {
    pub tok: KindModel,
    pub span: Span,
    pub idx: int,
    pub diags: Seq<DiagModel>,
}

/// The state after moving to the next token of `s`.
#[verifier::opaque]
pub open spec fn advance(s: Seq<char>, st: PState) -> PState {
    let (k, kind, span, e) = next_token_spec(s, st.idx);
    PState { tok: kind, span, idx: k, diags: st.diags + e }
}

/// What is left to read from a state: twice the characters not read, and
/// one for the current token unless it is the end of the file.
pub open spec fn measure(s: Seq<char>, st: PState) -> nat {
    (2 * (s.len() - st.idx) + (if st.tok == KindModel::Plain(TokenKind::Eof) { 0int } else { 1int })) as nat
}

/// The state with one more error, reading `message` at `span`.
pub open spec fn report(st: PState, message: Seq<char>, span: Span) -> PState {
    PState { diags: st.diags.push(error_at(message, span)), ..st }
}

/// The state after checking that a token read, `tok` at `span`, is `kind`:
/// an error unless it is, or is an error token already reported.
pub open spec fn expect(st: PState, tok: KindModel, kind: TokenKind, message: Seq<char>, span: Span) -> PState {
    if tok == KindModel::Plain(kind) || tok == KindModel::Plain(TokenKind::Error) {
        st
    } else {
        report(st, message, span)
    }
}

/// The state after checking that a token read, `tok` at `span`, is the
/// word `kw`: an error unless it is, or is an error token already reported.
pub open spec fn expect_word(st: PState, tok: KindModel, kw: Seq<char>, message: Seq<char>, span: Span) -> PState {
    if tok == KindModel::Ident(kw) || tok == KindModel::Plain(TokenKind::Error) {
        st
    } else {
        report(st, message, span)
    }
}

/// The head of a function item read from state `st`: whether it is
/// external, its name with its span (none where the name token is not an
/// identifier), the span of its first token, and the state after its opening
/// parenthesis.
pub open spec fn func_head(s: Seq<char>, st: PState) -> (bool, Option<(Seq<char>, Span)>, Span, PState) {
    let st1 = expect_word(advance(s, st), st.tok, "func"@, "expected a func keyword"@, st.span);
    let ext = st1.tok == KindModel::Ident("ext"@);
    let st2 = if ext { advance(s, st1) } else { st1 };
    let st3 = advance(s, st2);
    let st3b = if st2.tok is Ident || st2.tok == KindModel::Plain(TokenKind::Error) {
        st3
    } else {
        report(st3, "expected an identifier"@, st2.span)
    };
    let name = match st2.tok {
        KindModel::Ident(i) => Some((i, st2.span)),
        _ => None,
    };
    let st4 = advance(s, st3b);
    let st5 = expect(st4, st3b.tok, TokenKind::LParen, "expected an opening parenthesis"@, st3b.span);
    (ext, name, st.span, st5)
}

/// An `import` item read from state `st`: the module name with its span
/// (none where the name token is not an identifier), the item's span, and
/// the state after its semicolon.
pub open spec fn import_spec(s: Seq<char>, st: PState) -> (Option<(Seq<char>, Span)>, Span, PState) {
    let st1 = expect_word(advance(s, st), st.tok, "import"@, "expected an import keyword"@, st.span);
    let st2 = advance(s, st1);
    let st2b = if st1.tok is Ident || st1.tok == KindModel::Plain(TokenKind::Error) {
        st2
    } else {
        report(st2, "expected a module name"@, st1.span)
    };
    let name = match st1.tok {
        KindModel::Ident(i) => Some((i, st1.span)),
        _ => None,
    };
    let st3 = expect(advance(s, st2b), st2b.tok, TokenKind::Semicolon, "expected a semicolon"@, st2b.span);
    (name, Span { lo: st.span.lo, hi: st2b.span.hi }, st3)
}

/// Whether reading a function item from state `st` gives `it` and leaves
/// state `st2`: the head, then an external function's parameter types,
/// return type and semicolon, or a defined function's parameters, return
/// type and body statement, as the grammar reads them; a defined function
/// with an unnamed parameter, or any function without a name, is an error.
pub open spec fn func_read(s: Seq<char>, st: PState, it: Item, st2: PState) -> bool {
    let (ext, name, start, st5) = func_head(s, st);
    if ext {
        let (tys, st6) = ty_list_spec(s, st5);
        let (ret, st7) = ret_spec(s, st6);
        let st8 = expect(advance(s, st7), st7.tok, TokenKind::Semicolon, "expected a semicolon"@, st7.span);
        &&& st2 == st8
        &&& it.span == (Span { lo: start.lo, hi: st7.span.hi })
        &&& match name {
            Some(n) => it.inner matches ItemKind::FunctionExternal { name: nm, params, ret: r }
                && nm.inner@ == n.0 && nm.span == n.1 && tys_model(params) == tys && ty_model(r) == ret,
            None => it.inner is Error,
        }
    } else {
        let (ps, st6) = params_spec(s, st5);
        let (ret, st7) = ret_spec(s, st6);
        let (body, st8) = stmt_spec(s, st7);
        &&& st2 == st8
        &&& it.span == (Span { lo: start.lo, hi: body.span.hi })
        &&& match it.inner {
            ItemKind::FunctionDefined { name: nm, params, ret: r, body: b } =>
                name == Some((nm.inner@, nm.span)) && ty_model(r) == ret && stmt_view(b) == body
                && params@.len() == ps.len()
                && forall|k: int| 0 <= k < ps.len() ==>
                    ps[k] == (Some(((#[trigger] params@[k]).0.inner@, params@[k].0.span)), ty_model(params@[k].1)),
            ItemKind::Error => name is None || exists|k: int| 0 <= k < ps.len() && (#[trigger] ps[k]).0 is None,
            _ => false,
        }
    }
}

/// Whether reading an item from state `st` may give `it` and leave state
/// `st2`: an import, a function, an error token skipped, or any other token
/// skipped with an error.
pub open spec fn item_read(s: Seq<char>, st: PState, it: Item, st2: PState) -> bool {
    if st.tok == KindModel::Ident("import"@) {
        let (name, span, st3) = import_spec(s, st);
        &&& st2 == st3
        &&& it.span == span
        &&& match name {
            Some(n) => it.inner matches ItemKind::Import(m) && m.inner@ == n.0 && m.span == n.1,
            None => it.inner is Error,
        }
    } else if st.tok == KindModel::Ident("func"@) {
        func_read(s, st, it, st2)
    } else if st.tok == KindModel::Plain(TokenKind::Error) {
        it.inner is Error && it.span == st.span && st2 == advance(s, st)
    } else {
        it.inner is Error && it.span == st.span && st2 == report(advance(s, st), "expected an item"@, st.span)
    }
}

/// Whether `items` are read from state `st` on, one after another, each
/// from where the one before left off, up to the end of the file: `sts`
/// are the states between them.
pub open spec fn items_read(s: Seq<char>, sts: Seq<PState>, items: Seq<Item>) -> bool {
    &&& sts.len() == items.len() + 1
    &&& forall|i: int| 0 <= i < items.len() ==> #[trigger] item_read(s, sts[i], items[i], sts[i + 1])
    &&& forall|i: int| 0 <= i < items.len() ==> (#[trigger] sts[i]).tok != KindModel::Plain(TokenKind::Eof)
    &&& sts.last().tok == KindModel::Plain(TokenKind::Eof)
}

impl Parser {
    /// Whether the lexer is sound and, at the end of the file, exhausted.
    pub closed spec fn wf(&self) -> bool {
        &&& self.lexer.wf()
        &&& 0 <= self.lexer.index() <= self.lexer.text().len()
        &&& is_eof(self.current) ==> self.lexer.index() == self.lexer.text().len()
    }

    /// What is left to read: twice the characters the lexer has not read,
    /// and one for the current token unless it is the end of the file.
    pub closed spec fn remaining(&self) -> nat {
        (2 * (self.lexer.text().len() - self.lexer.index()) + (if is_eof(self.current) { 0int } else { 1int })) as nat
    }

    /// Whether the current token is the end of the file.
    pub closed spec fn at_eof(&self) -> bool {
        is_eof(self.current)
    }

    /// The characters of the source.
    pub closed spec fn text(&self) -> Seq<char> {
        self.lexer.text()
    }

    /// The context: the source file and the diagnostics so far.
    pub closed spec fn context(&self) -> CompilerCtx {
        self.lexer.context()
    }

    /// Where the parser stands, as a model.
    pub closed spec fn state(&self) -> PState {
        PState {
            tok: kind_view(self.current.inner),
            span: self.current.span,
            idx: self.lexer.index(),
            diags: diags_view(self.context().diags@),
        }
    }

    /// What is left to read is the measure of the state.
    proof fn lemma_remaining(&self)
        requires
            self.wf(),
        ensures
            self.remaining() == measure(self.text(), self.state()),
            self.at_eof() <==> self.state().tok == KindModel::Plain(TokenKind::Eof),
    {
    }

    /// Whether `self` reads the same source as `other`.
    pub open spec fn same_source(&self, other: &Self) -> bool {
        &&& self.text() == other.text()
        &&& self.context().source == other.context().source
    }

    /// A parser over `lexer`, with its first token read.
    pub fn new(lexer: Lexer) -> (p: Self)
        requires
            lexer.wf(),
            lexer.index() == 0,
        ensures
            p.wf(),
            p.text() == lexer.text(),
            p.context().source == lexer.context().source,
    {
        let mut lexer = lexer;
        proof { lemma_next_token_progress(lexer.text(), 0); }
        let current = lexer.next_token();
        Parser { lexer, current }
    }

    /// The context: the source file and the diagnostics so far.
    pub fn into_ctx(self) -> (c: CompilerCtx)
        ensures
            c == self.context(),
    {
        self.lexer.into_ctx()
    }

    /// Moves to the next token; the one that was current.
    fn bump(&mut self) -> (t: Token)
        requires
            old(self).wf(),
        ensures
            final(self).wf(),
            t == old(self).current,
            final(self).same_source(old(self)),
            final(self).remaining() <= old(self).remaining(),
            !is_eof(old(self).current) ==> final(self).remaining() < old(self).remaining(),
            final(self).state() == advance(old(self).text(), old(self).state()),
    {
        proof { lemma_next_token_progress(self.lexer.text(), self.lexer.index()); }
        let mut t = self.lexer.next_token();
        std::mem::swap(&mut t, &mut self.current);
        proof { reveal(advance); }
        t
    }

    /// Records an error with an important label at `span`.
    fn error(&mut self, message: &str, span: Span)
        requires
            old(self).wf(),
        ensures
            final(self).wf(),
            final(self).same_source(old(self)),
            final(self).remaining() == old(self).remaining(),
            final(self).current == old(self).current,
            one_error(final(self).context().diags@, old(self).context().diags@, old(self).context().source, message@, span),
            final(self).state() == report(old(self).state(), message@, span),
    {
        let d = Diag::new(self.lexer.source(), message.to_owned()).with_label(span, true);
        proof {
            assert(d.labels@.map_values(|l: super::diag::Label| super::diag::label_view(l))
                =~= seq![super::diag::LabelModel { message: None, span, important: true }]);
            assert(d.helps@.map_values(|h: super::diag::Help| super::diag::help_view(h)) =~= Seq::<Seq<char>>::empty());
        }
        let ghost before = self.context().diags@;
        self.lexer.emit(d);
        proof {
            assert(self.context().diags@.take(before.len() as int) =~= before);
            assert(diags_view(self.context().diags@) =~= diags_view(before).push(diag_view(d)));
        }
    }

    /// Reports `tok` as unexpected unless it is an error token, which the
    /// lexer reported already.
    fn unexpected(&mut self, message: &str, tok: &Token)
        requires
            old(self).wf(),
        ensures
            final(self).wf(),
            final(self).same_source(old(self)),
            final(self).remaining() == old(self).remaining(),
            final(self).current == old(self).current,
            if tok.inner is Error {
                final(self).context().diags@ == old(self).context().diags@
            } else {
                one_error(final(self).context().diags@, old(self).context().diags@, old(self).context().source, message@, tok.span)
            },
            final(self).state() == if tok.inner is Error { old(self).state() } else { report(old(self).state(), message@, tok.span) },
    {
        if !matches!(tok.inner, TokenKind::Error) {
            self.error(message, tok.span);
        }
    }

    /// Whether the current token is the identifier `kw`.
    fn current_is(&self, kw: &str) -> (r: bool)
        ensures
            r == (kind_text(self.current) == Some(kw@)),
    {
        match &self.current.inner {
            TokenKind::Ident(name) => str_eq(name.as_str(), kw),
            _ => false,
        }
    }

    /// Expects the token `tok` to be `kind`, else reports `message`.
    fn expect_plain(&mut self, tok: &Token, kind: &TokenKind, message: &str)
        requires
            old(self).wf(),
        ensures
            final(self).wf(),
            final(self).same_source(old(self)),
            final(self).remaining() == old(self).remaining(),
            final(self).current == old(self).current,
            if same_plain_kind(tok.inner, *kind) || tok.inner is Error {
                final(self).context().diags@ == old(self).context().diags@
            } else {
                one_error(final(self).context().diags@, old(self).context().diags@, old(self).context().source, message@, tok.span)
            },
            is_plain(*kind) ==> final(self).state() == expect(old(self).state(), kind_view(tok.inner), *kind, message@, tok.span),
    {
        if !same_kind(&tok.inner, kind) {
            self.unexpected(message, tok);
        }
    }

    /// Expects the token `tok` to be the identifier `kw`, else reports `message`.
    fn expect_kw(&mut self, tok: &Token, kw: &str, message: &str)
        requires
            old(self).wf(),
        ensures
            final(self).wf(),
            final(self).same_source(old(self)),
            final(self).remaining() == old(self).remaining(),
            final(self).current == old(self).current,
            if kind_text(*tok) == Some(kw@) || tok.inner is Error {
                final(self).context().diags@ == old(self).context().diags@
            } else {
                one_error(final(self).context().diags@, old(self).context().diags@, old(self).context().source, message@, tok.span)
            },
            final(self).state() == expect_word(old(self).state(), kind_view(tok.inner), kw@, message@, tok.span),
    {
        let ok = match &tok.inner {
            TokenKind::Ident(name) => str_eq(name.as_str(), kw),
            _ => false,
        };
        if !ok {
            self.unexpected(message, tok);
        }
    }
}

/// The text of an identifier token.
pub open spec fn kind_text(t: Token) -> Option<Seq<char>> {
    match t.inner {
        TokenKind::Ident(s) => Some(s@),
        _ => None,
    }
}

/// Whether `new` is `old` with one more error, about `source`, with `message`
/// and an important label at `span`.
pub open spec fn one_error(new: Seq<Diag>, old: Seq<Diag>, source: Rc<SourceFile>, message: Seq<char>, span: Span) -> bool {
    &&& new.len() == old.len() + 1
    &&& new.take(old.len() as int) == old
    &&& new.last().source_file == source
    &&& diag_view(new.last()) == error_at(message, span)
}

/// A type read from state `st`, and the state after it: `int`, `unit`, `*`
/// and a type, or a function type; anything else is an error and reads as
/// `unit`. (Where a recursive reading would not shrink what is left, which
/// never happens, the reading stops.)
pub open spec fn ty_spec(s: Seq<char>, st: PState) -> (TyModel, PState)
    decreases measure(s, st), 1int,
{
    if st.tok == KindModel::Ident("int"@) {
        (TyModel::Int, advance(s, st))
    } else if st.tok == KindModel::Ident("func"@) {
        func_ty_spec(s, st)
    } else if st.tok == KindModel::Ident("unit"@) {
        (TyModel::Unit, advance(s, st))
    } else if st.tok == KindModel::Plain(TokenKind::Star) {
        if measure(s, advance(s, st)) < measure(s, st) {
            let (t, st1) = ty_spec(s, advance(s, st));
            (TyModel::Ptr(Box::new(t)), st1)
        } else {
            (TyModel::Unit, advance(s, st))
        }
    } else {
        (TyModel::Unit, report(advance(s, st), "expected a type"@, st.span))
    }
}

/// A function type read from state `st`, whose token is `func`: an opening
/// parenthesis, the parameter types, a closing parenthesis and, after a `:`,
/// the return type, else `unit`; the state after it.
pub open spec fn func_ty_spec(s: Seq<char>, st: PState) -> (TyModel, PState)
    decreases measure(s, st), 0int,
{
    let st1 = advance(s, st);
    let st2 = advance(s, st1);
    let st3 = expect(st2, st1.tok, TokenKind::LParen, "expected an opening parenthesis"@, st1.span);
    if measure(s, st3) < measure(s, st) {
        let (ps, st4) = ty_list_spec(s, st3);
        let st5 = advance(s, st4);
        let st6 = expect(st5, st4.tok, TokenKind::RParen, "expected a closing parenthesis"@, st4.span);
        if st6.tok == KindModel::Plain(TokenKind::Colon) {
            if measure(s, advance(s, st6)) < measure(s, st) {
                let (r, st7) = ty_spec(s, advance(s, st6));
                (TyModel::Func(ps, Box::new(r)), st7)
            } else {
                (TyModel::Unit, st6)
            }
        } else {
            (TyModel::Func(ps, Box::new(TyModel::Unit)), st6)
        }
    } else {
        (TyModel::Unit, st3)
    }
}

/// Types separated by commas, read from state `st` up to a closing
/// parenthesis or a type not followed by a comma; the state after them.
pub open spec fn ty_list_spec(s: Seq<char>, st: PState) -> (Seq<TyModel>, PState)
    decreases measure(s, st), 2int,
{
    if st.tok == KindModel::Plain(TokenKind::RParen) {
        (Seq::empty(), st)
    } else {
        let (t, st1) = ty_spec(s, st);
        if st1.tok == KindModel::Plain(TokenKind::Comma) && measure(s, advance(s, st1)) < measure(s, st) {
            let (rest, st2) = ty_list_spec(s, advance(s, st1));
            (seq![t] + rest, st2)
        } else {
            (seq![t], st1)
        }
    }
}

/// Reading a type at `func` reads a function type.
proof fn lemma_ty_func(s: Seq<char>, st: PState)
    requires
        st.tok == KindModel::Ident("func"@),
    ensures
        ty_spec(s, st) == func_ty_spec(s, st),
{
    reveal_strlit("int");
    reveal_strlit("func");
    assert("int"@.len() != "func"@.len());
}

/// A list of types ends at a closing parenthesis.
proof fn lemma_ty_list_end(s: Seq<char>, st: PState)
    requires
        st.tok == KindModel::Plain(TokenKind::RParen),
    ensures
        ty_list_spec(s, st) == (Seq::<TyModel>::empty(), st),
{
}

/// A type not followed by a comma ends a list of types.
proof fn lemma_ty_list_last(s: Seq<char>, st: PState, t: TyModel, st1: PState)
    requires
        st.tok != KindModel::Plain(TokenKind::RParen),
        ty_spec(s, st) == (t, st1),
        st1.tok != KindModel::Plain(TokenKind::Comma),
    ensures
        ty_list_spec(s, st) == (seq![t], st1),
{
}

/// A type followed by a comma starts the rest of a list of types.
proof fn lemma_ty_list_more(s: Seq<char>, st: PState, t: TyModel, st1: PState)
    requires
        st.tok != KindModel::Plain(TokenKind::RParen),
        ty_spec(s, st) == (t, st1),
        st1.tok == KindModel::Plain(TokenKind::Comma),
        measure(s, advance(s, st1)) < measure(s, st),
    ensures
        ty_list_spec(s, st) == (seq![t] + ty_list_spec(s, advance(s, st1)).0, ty_list_spec(s, advance(s, st1)).1),
{
}

/// The closing parenthesis of a parameter list, read from state `st`, and
/// the return type after a `:`, or `unit` without one; the state after them.
pub open spec fn ret_spec(s: Seq<char>, st: PState) -> (TyModel, PState) {
    let st1 = advance(s, st);
    let st2 = expect(st1, st.tok, TokenKind::RParen, "expected a closing parenthesis"@, st.span);
    if st2.tok == KindModel::Plain(TokenKind::Colon) {
        ty_spec(s, advance(s, st2))
    } else {
        (TyModel::Unit, st2)
    }
}

/// The name a parameter's first token gives: an identifier's text and span.
pub open spec fn param_name(tok: KindModel, span: Span) -> Option<(Seq<char>, Span)> {
    match tok {
        KindModel::Ident(i) => Some((i, span)),
        _ => None,
    }
}

/// Parameters `name: type` separated by commas, read from state `st` up to
/// a closing parenthesis or a parameter not followed by a comma; a token that
/// is not a name is an error (unless the lexer reported it) and leaves the
/// name out; the state after them.
pub open spec fn params_spec(s: Seq<char>, st: PState) -> (Seq<(Option<(Seq<char>, Span)>, TyModel)>, PState)
    decreases measure(s, st),
{
    if st.tok == KindModel::Plain(TokenKind::RParen) {
        (Seq::empty(), st)
    } else {
        let st1 = advance(s, st);
        let st1b = if st.tok is Ident || st.tok == KindModel::Plain(TokenKind::Error) {
            st1
        } else {
            report(st1, "expected an identifier"@, st.span)
        };
        let st2 = advance(s, st1b);
        let st3 = expect(st2, st1b.tok, TokenKind::Colon, "expected a colon"@, st1b.span);
        let (t, st4) = ty_spec(s, st3);
        let p = (param_name(st.tok, st.span), t);
        if st4.tok == KindModel::Plain(TokenKind::Comma) && measure(s, advance(s, st4)) < measure(s, st) {
            let (rest, st5) = params_spec(s, advance(s, st4));
            (seq![p] + rest, st5)
        } else {
            (seq![p], st4)
        }
    }
}

/// Parsed parameters as names with spans, and types.
pub open spec fn params_view(v: Seq<(Option<Spanned<String>>, Ty)>) -> Seq<(Option<(Seq<char>, Span)>, TyModel)> {
    v.map_values(|p: (Option<Spanned<String>>, Ty)| (
        match p.0 {
            Some(n) => Some((n.inner@, n.span)),
            None => None,
        },
        ty_model(p.1),
    ))
}

/// Whether a token kind is one of those `same_plain_kind` compares.
pub open spec fn is_plain(k: TokenKind) -> bool {
    k is LParen || k is RParen || k is LBrace || k is RBrace || k is Colon || k is Semicolon || k is Eq || k is Comma
}

/// Whether two token kinds are the same kind without text: both parentheses,
/// braces, colons, semicolons, equals signs or commas of the same side.
pub open spec fn same_plain_kind(a: TokenKind, b: TokenKind) -> bool {
    ||| a is LParen && b is LParen
    ||| a is RParen && b is RParen
    ||| a is LBrace && b is LBrace
    ||| a is RBrace && b is RBrace
    ||| a is Colon && b is Colon
    ||| a is Semicolon && b is Semicolon
    ||| a is Eq && b is Eq
    ||| a is Comma && b is Comma
}

/// The binary operator a token kind stands for, and its precedence: a higher
/// one binds tighter.
pub open spec fn binary_op_of(k: TokenKind) -> Option<(BinaryOp, u8)> {
    match k {
        TokenKind::Plus => Some((BinaryOp::Add, 10)),
        TokenKind::Minus => Some((BinaryOp::Sub, 10)),
        TokenKind::Star => Some((BinaryOp::Mul, 11)),
        TokenKind::Slash => Some((BinaryOp::Div, 11)),
        TokenKind::Percent => Some((BinaryOp::Mod, 11)),
        TokenKind::Lt => Some((BinaryOp::Lt, 8)),
        TokenKind::Le => Some((BinaryOp::Le, 8)),
        TokenKind::Gt => Some((BinaryOp::Gt, 8)),
        TokenKind::Ge => Some((BinaryOp::Ge, 8)),
        TokenKind::EqEq => Some((BinaryOp::Eq, 7)),
        TokenKind::BangEq => Some((BinaryOp::Ne, 7)),
        TokenKind::Amp => Some((BinaryOp::BitAnd, 6)),
        TokenKind::Caret => Some((BinaryOp::BitXor, 5)),
        TokenKind::Pipe => Some((BinaryOp::BitOr, 4)),
        TokenKind::AmpAmp => Some((BinaryOp::LogAnd, 3)),
        TokenKind::PipePipe => Some((BinaryOp::LogOr, 2)),
        _ => None,
    }
}

/// Whether two token kinds without text are the same kind.
fn same_kind(a: &TokenKind, b: &TokenKind) -> (r: bool)
    ensures
        r == same_plain_kind(*a, *b),
{
    match (a, b) {
        (TokenKind::LParen, TokenKind::LParen) | (TokenKind::RParen, TokenKind::RParen)
        | (TokenKind::LBrace, TokenKind::LBrace) | (TokenKind::RBrace, TokenKind::RBrace)
        | (TokenKind::Colon, TokenKind::Colon) | (TokenKind::Semicolon, TokenKind::Semicolon)
        | (TokenKind::Eq, TokenKind::Eq) | (TokenKind::Comma, TokenKind::Comma) => true,
        _ => false,
    }
}


/// Whether `new` reads the same source as `old`, is sound, and has no more
/// left to read.
pub open spec fn kept(new: Parser, old: Parser) -> bool {
    &&& new.wf()
    &&& new.same_source(&old)
    &&& new.remaining() <= old.remaining()
}

/// Whether `new` has read something since `old`, unless `old` was at the
/// end of the file.
pub open spec fn progressed(new: Parser, old: Parser) -> bool {
    !old.at_eof() ==> new.remaining() < old.remaining()
}

impl Parser {
    /// An integer literal.
    fn parse_int(&mut self) -> (e: Expr)
        requires
            old(self).wf(),
        ensures
            kept(*final(self), *old(self)),
            progressed(*final(self), *old(self)),
            (expr_view(e), final(self).state()) == int_spec(old(self).text(), old(self).state()),
    {
        let tok = self.bump();
        match tok.inner {
            TokenKind::IntLit(v) => Spanned::new(ExprKind::IntLit(v), tok.span),
            TokenKind::Error => Spanned::new(ExprKind::Error, tok.span),
            _ => {
                self.error("expected an integer literal", tok.span);
                Spanned::new(ExprKind::Error, tok.span)
            }
        }
    }

    /// A character literal.
    fn parse_char(&mut self) -> (e: Expr)
        requires
            old(self).wf(),
        ensures
            kept(*final(self), *old(self)),
            progressed(*final(self), *old(self)),
            (expr_view(e), final(self).state()) == char_spec(old(self).text(), old(self).state()),
    {
        let tok = self.bump();
        match tok.inner {
            TokenKind::CharLit(v) => Spanned::new(ExprKind::CharLit(v), tok.span),
            TokenKind::Error => Spanned::new(ExprKind::Error, tok.span),
            _ => {
                self.error("expected a character literal", tok.span);
                Spanned::new(ExprKind::Error, tok.span)
            }
        }
    }

    /// A string literal.
    fn parse_str(&mut self) -> (e: Expr)
        requires
            old(self).wf(),
        ensures
            kept(*final(self), *old(self)),
            progressed(*final(self), *old(self)),
            (expr_view(e), final(self).state()) == str_spec(old(self).text(), old(self).state()),
    {
        let tok = self.bump();
        match tok.inner {
            TokenKind::StrLit(v) => Spanned::new(ExprKind::StrLit(v), tok.span),
            TokenKind::Error => Spanned::new(ExprKind::Error, tok.span),
            _ => {
                self.error("expected a string literal", tok.span);
                Spanned::new(ExprKind::Error, tok.span)
            }
        }
    }

    /// A name, or a path of names separated by double colons.
    fn parse_ident_or_path(&mut self) -> (e: Expr)
        requires
            old(self).wf(),
        ensures
            kept(*final(self), *old(self)),
            progressed(*final(self), *old(self)),
            (expr_view(e), final(self).state()) == ident_or_path_spec(old(self).text(), old(self).state()),
    {
        let ghost s = self.text();
        let ghost st = self.state();
        let tok = self.bump();
        let ghost st1 = self.state();
        let first = match tok.inner {
            TokenKind::Ident(first) => first,
            _ => {
                self.unexpected("expected an identifier", &tok);
                return Spanned::new(ExprKind::Error, tok.span);
            }
        };
        proof { assert(st.tok == KindModel::Ident(first@)); }
        if !matches!(self.current.inner, TokenKind::ColonColon) {
            let e = Spanned::new(ExprKind::LValue(Box::new(LValue::Var(first))), tok.span);
            proof {
                assert(lval_view(LValue::Var(first)) == LValueM::Var(first@));
                assert(expr_view(e) == ExprM { kind: ExprKindM::LValue(Box::new(LValueM::Var(first@))), span: st.span });
            }
            return e;
        }
        let ghost target = path_loop(s, st1, seq![(first@, st.span)], st.span);
        let mut segments: Vec<Spanned<String>> = Vec::new();
        segments.push(Spanned::new(first, tok.span));
        let mut last_span = tok.span;
        proof { assert(segs_view(segments@) =~= seq![(st.tok->Ident_0, st.span)]); }
        while matches!(self.current.inner, TokenKind::ColonColon)
            invariant_except_break
                path_loop(s, self.state(), segs_view(segments@), last_span) == target,
            invariant
                kept(*self, *old(self)),
                progressed(*self, *old(self)),
                s == self.text(),
            ensures
                target == (segs_view(segments@), last_span, self.state()),
            decreases self.remaining(),
        {
            let ghost sti = self.state();
            let ghost sv = segs_view(segments@);
            proof { self.lemma_remaining(); }
            self.bump();
            let seg_tok = self.bump();
            last_span = seg_tok.span;
            proof { self.lemma_remaining(); }
            match seg_tok.inner {
                TokenKind::Ident(i) => {
                    let ghost iv = i@;
                    segments.push(Spanned::new(i, seg_tok.span));
                    proof { assert(segs_view(segments@) =~= sv.push((iv, seg_tok.span))); }
                }
                TokenKind::Error => break,
                _ => {
                    self.error("expected an identifier after a double colon", seg_tok.span);
                    break;
                }
            }
        }
        let span = tok.span.with_hi(last_span.hi);
        Spanned::new(ExprKind::Path(segments), span)
    }

    /// A parenthesized expression; the current token is its opening parenthesis.
    fn parse_grouped(&mut self) -> (e: Expr)
        requires
            old(self).wf(),
            !old(self).at_eof(),
        ensures
            kept(*final(self), *old(self)),
            progressed(*final(self), *old(self)),
            (expr_view(e), final(self).state()) == grouped_spec(old(self).text(), old(self).state()),
        decreases old(self).remaining(), 2nat,
    {
        let ghost s = self.text();
        let ghost st = self.state();
        proof { self.lemma_remaining(); }
        let start = self.bump();
        self.expect_plain(&start, &TokenKind::LParen, "expected an opening parenthesis");
        proof { self.lemma_remaining(); }
        let expr = self.parse_expr();
        let ghost st2 = self.state();
        let end = self.bump();
        self.expect_plain(&end, &TokenKind::RParen, "expected a closing parenthesis");
        let e = Spanned::new(expr.inner, start.span.with_hi(end.span.hi));
        proof { assert(expr_view(e).kind == expr_view(expr).kind); }
        e
    }

    /// A literal, a name or path, or a parenthesized expression.
    fn parse_atom(&mut self) -> (e: Expr)
        requires
            old(self).wf(),
        ensures
            kept(*final(self), *old(self)),
            progressed(*final(self), *old(self)),
            (expr_view(e), final(self).state()) == atom_spec(old(self).text(), old(self).state()),
        decreases old(self).remaining(), 3nat,
    {
        match self.current.inner {
            TokenKind::IntLit(_) => self.parse_int(),
            TokenKind::CharLit(_) => self.parse_char(),
            TokenKind::StrLit(_) => self.parse_str(),
            TokenKind::Ident(_) => self.parse_ident_or_path(),
            TokenKind::LParen => self.parse_grouped(),
            TokenKind::Error => {
                let err = self.bump();
                Spanned::new(ExprKind::Error, err.span)
            }
            _ => {
                let err = self.bump();
                self.error("unexpected token", err.span);
                Spanned::new(ExprKind::Error, err.span)
            }
        }
    }

    /// An atom followed by any number of argument lists: calls.
    fn parse_postfix(&mut self) -> (e: Expr)
        requires
            old(self).wf(),
        ensures
            kept(*final(self), *old(self)),
            progressed(*final(self), *old(self)),
            (expr_view(e), final(self).state()) == postfix_spec(old(self).text(), old(self).state()),
        decreases old(self).remaining(), 4nat,
    {
        let ghost s = self.text();
        proof { self.lemma_remaining(); }
        let mut expr = self.parse_atom();
        proof { self.lemma_remaining(); }
        let ghost target = postfix_loop(s, self.state(), expr_view(expr));
        while matches!(self.current.inner, TokenKind::LParen)
            invariant
                kept(*self, *old(self)),
                progressed(*self, *old(self)),
                s == self.text(),
                postfix_loop(s, self.state(), expr_view(expr)) == target,
            decreases self.remaining(),
        {
            let ghost sti = self.state();
            let ghost callee = expr_view(expr);
            proof { self.lemma_remaining(); }
            let ghost r0 = self.remaining();
            self.bump();
            let ghost st1 = self.state();
            proof { self.lemma_remaining(); }
            let mut params: Vec<Expr> = Vec::new();
            if !matches!(self.current.inner, TokenKind::RParen) {
                proof { assert(exprs_view(params) =~= Seq::<ExprM>::empty()); }
                loop
                    invariant_except_break
                        args_loop(s, self.state(), exprs_view(params)) == args_loop(s, st1, Seq::empty()),
                    invariant
                        kept(*self, *old(self)),
                        self.remaining() < r0,
                        r0 <= old(self).remaining(),
                        s == self.text(),
                    ensures
                        (exprs_view(params), self.state()) == args_loop(s, st1, Seq::empty()),
                    decreases self.remaining(),
                {
                    let ghost acc = exprs_view(params);
                    proof { self.lemma_remaining(); }
                    let a = self.parse_expr();
                    let ghost av = expr_view(a);
                    params.push(a);
                    proof {
                        assert(exprs_view(params) =~= acc.push(av));
                        self.lemma_remaining();
                    }
                    if matches!(self.current.inner, TokenKind::Comma) {
                        self.bump();
                        proof { self.lemma_remaining(); }
                    } else {
                        break;
                    }
                }
            } else {
                proof { assert(exprs_view(params) =~= Seq::<ExprM>::empty()); }
            }
            let ghost st2 = self.state();
            let end = self.bump();
            self.expect_plain(&end, &TokenKind::RParen, "expected a closing parenthesis");
            proof { self.lemma_remaining(); }
            let span = expr.span.with_hi(end.span.hi);
            expr = Spanned::new(ExprKind::Call { callee: Box::new(expr), params }, span);
            proof {
                assert(expr_view(expr) == ExprM { kind: ExprKindM::Call(Box::new(callee), exprs_view(params)), span: Span { lo: callee.span.lo, hi: st2.span.hi } });
            }
        }
        expr
    }

    /// A place: a name, or a dereference of a postfix expression.
    fn parse_lvalue(&mut self) -> (l: Spanned<LValue>)
        requires
            old(self).wf(),
        ensures
            kept(*final(self), *old(self)),
            progressed(*final(self), *old(self)),
            (lval_view(l.inner), l.span, final(self).state()) == lvalue_spec(old(self).text(), old(self).state()),
        decreases old(self).remaining(), 5nat,
    {
        let ghost s = self.text();
        proof { self.lemma_remaining(); }
        match self.current.inner {
            TokenKind::Ident(_) => {
                let var = self.bump();
                let name = match var.inner {
                    TokenKind::Ident(i) => i,
                    _ => String::new(),
                };
                Spanned::new(LValue::Var(name), var.span)
            }
            TokenKind::Star => {
                let star_span = self.bump().span;
                proof { self.lemma_remaining(); }
                let expr = self.parse_postfix();
                let span = star_span.with_hi(expr.span.hi);
                Spanned::new(LValue::Deref(expr), span)
            }
            TokenKind::Error => {
                let error_span = self.bump().span;
                Spanned::new(LValue::Error, error_span)
            }
            _ => {
                let other = self.bump();
                self.error("expected an l-value", other.span);
                Spanned::new(LValue::Error, other.span)
            }
        }
    }

    /// Prefix operators applied to a postfix expression, or a reference to a place.
    fn parse_prefix(&mut self) -> (e: Expr)
        requires
            old(self).wf(),
        ensures
            kept(*final(self), *old(self)),
            progressed(*final(self), *old(self)),
            (expr_view(e), final(self).state()) == prefix_spec(old(self).text(), old(self).state()),
        decreases old(self).remaining(), 5nat,
    {
        let ghost s = self.text();
        let ghost st = self.state();
        proof { self.lemma_remaining(); }
        match self.current.inner {
            TokenKind::Minus | TokenKind::Bang | TokenKind::Tilde => {
                let op = match self.current.inner {
                    TokenKind::Minus => UnaryOp::Neg,
                    TokenKind::Bang => UnaryOp::LogNot,
                    _ => UnaryOp::BitNot,
                };
                assert(tok_unary_op(st.tok) == Some(op));
                let op_span = self.bump().span;
                proof { self.lemma_remaining(); }
                let expr = Box::new(self.parse_prefix());
                let span = op_span.with_hi(expr.span.hi);
                Spanned::new(ExprKind::Unary { op, expr }, span)
            }
            TokenKind::Amp => {
                assert(tok_unary_op(st.tok) is None);
                let op_span = self.bump().span;
                proof { self.lemma_remaining(); }
                let lv = self.parse_lvalue();
                let expr = Spanned::new(Box::new(lv.inner), lv.span);
                let span = op_span.with_hi(expr.span.hi);
                Spanned::new(ExprKind::Ref(expr), span)
            }
            _ => {
                assert(tok_unary_op(st.tok) is None);
                assert(st.tok != KindModel::Plain(TokenKind::Amp));
                self.parse_postfix()
            }
        }
    }

    /// The binary operator of the current token and its precedence.
    fn binary_op(&self) -> (r: Option<(BinaryOp, u8)>)
        ensures
            r == binary_op_of(self.current.inner),
            r == tok_binary_op(self.state().tok),
            r matches Some((_, p)) ==> p <= 11,
            r is Some ==> !self.at_eof(),
    {
        match self.current.inner {
            TokenKind::Plus => Some((BinaryOp::Add, 10)),
            TokenKind::Minus => Some((BinaryOp::Sub, 10)),
            TokenKind::Star => Some((BinaryOp::Mul, 11)),
            TokenKind::Slash => Some((BinaryOp::Div, 11)),
            TokenKind::Percent => Some((BinaryOp::Mod, 11)),
            TokenKind::Lt => Some((BinaryOp::Lt, 8)),
            TokenKind::Le => Some((BinaryOp::Le, 8)),
            TokenKind::Gt => Some((BinaryOp::Gt, 8)),
            TokenKind::Ge => Some((BinaryOp::Ge, 8)),
            TokenKind::EqEq => Some((BinaryOp::Eq, 7)),
            TokenKind::BangEq => Some((BinaryOp::Ne, 7)),
            TokenKind::Amp => Some((BinaryOp::BitAnd, 6)),
            TokenKind::Caret => Some((BinaryOp::BitXor, 5)),
            TokenKind::Pipe => Some((BinaryOp::BitOr, 4)),
            TokenKind::AmpAmp => Some((BinaryOp::LogAnd, 3)),
            TokenKind::PipePipe => Some((BinaryOp::LogOr, 2)),
            _ => None,
        }
    }

    /// Binary operations of precedence at least `min_prec`, grouped to the left.
    fn parse_binary(&mut self, min_prec: u8) -> (e: Expr)
        requires
            old(self).wf(),
            min_prec <= 12,
        ensures
            kept(*final(self), *old(self)),
            progressed(*final(self), *old(self)),
            (expr_view(e), final(self).state()) == binary_spec(old(self).text(), old(self).state(), min_prec as int),
        decreases old(self).remaining(), 6nat,
    {
        let ghost s = self.text();
        proof { self.lemma_remaining(); }
        let mut left = self.parse_prefix();
        proof { self.lemma_remaining(); }
        let ghost target = binary_loop(s, self.state(), expr_view(left), min_prec as int);
        loop
            invariant
                kept(*self, *old(self)),
                progressed(*self, *old(self)),
                min_prec <= 12,
                s == self.text(),
                binary_loop(s, self.state(), expr_view(left), min_prec as int) == target,
            ensures
                (expr_view(left), self.state()) == target,
            decreases self.remaining(),
        {
            let ghost sti = self.state();
            let ghost lv = expr_view(left);
            proof { self.lemma_remaining(); }
            let (op, prec) = match self.binary_op() {
                Some(x) => x,
                None => break,
            };
            if prec < min_prec {
                break;
            }
            self.bump();
            proof { self.lemma_remaining(); }
            let right = self.parse_binary(prec + 1);
            proof { self.lemma_remaining(); }
            let span = left.span.with_hi(right.span.hi);
            left = Spanned::new(ExprKind::Binary { left: Box::new(left), op, right: Box::new(right) }, span);
        }
        left
    }

    /// An expression: a binary expression, or an assignment to a place.
    fn parse_expr(&mut self) -> (e: Expr)
        requires
            old(self).wf(),
        ensures
            kept(*final(self), *old(self)),
            progressed(*final(self), *old(self)),
            (expr_view(e), final(self).state()) == expr_spec(old(self).text(), old(self).state()),
        decreases old(self).remaining(), 7nat,
    {
        let ghost s = self.text();
        proof { self.lemma_remaining(); }
        let left = self.parse_binary(0);
        if !matches!(self.current.inner, TokenKind::Eq) {
            return left;
        }
        let ghost lv = expr_view(left);
        self.bump();
        match left.inner {
            ExprKind::LValue(lval) => {
                proof { self.lemma_remaining(); }
                let left_span = left.span;
                let lval = Spanned::new(lval, left_span);
                let rhs = self.parse_expr();
                let span = left_span.with_hi(rhs.span.hi);
                Spanned::new(ExprKind::Assign { lval, expr: Box::new(rhs) }, span)
            }
            _ => {
                self.error("expected an l-value", left.span);
                proof { self.lemma_remaining(); }
                let rhs = self.parse_expr();
                Spanned::new(ExprKind::Error, rhs.span)
            }
        }
    }
}


impl Parser {
    /// A function type `func(T, ...): R`; the current token is `func`.
    fn parse_func_ty(&mut self) -> (t: Ty)
        requires
            old(self).wf(),
            old(self).state().tok == KindModel::Ident("func"@),
        ensures
            kept(*final(self), *old(self)),
            progressed(*final(self), *old(self)),
            (ty_model(t), final(self).state()) == func_ty_spec(old(self).text(), old(self).state()),
        decreases old(self).remaining(), 0nat,
    {
        let ghost s = self.text();
        let ghost st = self.state();
        proof { self.lemma_remaining(); }
        self.bump();
        let ghost st1 = self.state();
        assert(st1 == advance(s, st));
        let lparen = self.bump();
        assert(kind_view(lparen.inner) == st1.tok && lparen.span == st1.span);
        self.expect_plain(&lparen, &TokenKind::LParen, "expected an opening parenthesis");
        let ghost st3 = self.state();
        assert(st3 == expect(advance(s, st1), st1.tok, TokenKind::LParen, "expected an opening parenthesis"@, st1.span));
        proof { self.lemma_remaining(); }
        assert(measure(s, st3) < measure(s, st));
        let params = self.parse_param_types();
        let ghost st4 = self.state();
        assert((tys_model(params), st4) == ty_list_spec(s, st3));
        let rparen = self.bump();
        assert(kind_view(rparen.inner) == st4.tok && rparen.span == st4.span);
        self.expect_plain(&rparen, &TokenKind::RParen, "expected a closing parenthesis");
        let ghost st6 = self.state();
        assert(st6 == expect(advance(s, st4), st4.tok, TokenKind::RParen, "expected a closing parenthesis"@, st4.span));
        if matches!(self.current.inner, TokenKind::Colon) {
            self.bump();
            proof { self.lemma_remaining(); }
            assert(measure(s, advance(s, st6)) < measure(s, st));
            let ret = self.parse_ty();
            let t = Ty::Func(params, Box::new(ret));
            assert((ty_model(t), self.state()) == func_ty_spec(s, st));
            t
        } else {
            let ghost pm = tys_model(params);
            assert(st6.tok != KindModel::Plain(TokenKind::Colon));
            assert(ty_model(Ty::Unit) == TyModel::Unit);
            let t = Ty::Func(params, Box::new(Ty::Unit));
            assert(ty_model(t) == TyModel::Func(pm, Box::new(TyModel::Unit)));
            assert((ty_model(t), self.state()) == func_ty_spec(s, st));
            t
        }
    }

    /// A type: `int`, `unit`, a pointer `*T`, or a function type
    /// `func(T, ...): R`.
    fn parse_ty(&mut self) -> (t: Ty)
        requires
            old(self).wf(),
        ensures
            kept(*final(self), *old(self)),
            progressed(*final(self), *old(self)),
            (ty_model(t), final(self).state()) == ty_spec(old(self).text(), old(self).state()),
        decreases old(self).remaining(), 1nat,
    {
        let ghost s = self.text();
        let ghost st = self.state();
        proof { self.lemma_remaining(); }
        if self.current_is("int") {
            self.bump();
            assert((TyModel::Int, self.state()) == ty_spec(s, st));
            Ty::Int
        } else if self.current_is("func") {
            proof {
                reveal_strlit("int");
                reveal_strlit("func");
            }
            assert(st.tok == KindModel::Ident("func"@));
            assert(st.tok != KindModel::Ident("int"@));
            let t = self.parse_func_ty();
            proof { lemma_ty_func(s, st); }
            t
        } else if self.current_is("unit") {
            proof {
                reveal_strlit("int");
                reveal_strlit("func");
                reveal_strlit("unit");
            }
            self.bump();
            assert((TyModel::Unit, self.state()) == ty_spec(s, st));
            Ty::Unit
        } else if matches!(self.current.inner, TokenKind::Star) {
            self.bump();
            proof { self.lemma_remaining(); }
            assert(st.tok == KindModel::Plain(TokenKind::Star));
            let inner = self.parse_ty();
            let t = Ty::Ptr(Box::new(inner));
            assert((ty_model(t), self.state()) == ty_spec(s, st));
            t
        } else {
            let tok = self.bump();
            self.error("expected a type", tok.span);
            assert((TyModel::Unit, self.state()) == ty_spec(s, st));
            Ty::Unit
        }
    }

    /// A `let` statement: a name, an optional type and an optional initializer.
    fn parse_let(&mut self) -> (st: Stmt)
        requires
            old(self).wf(),
        ensures
            kept(*final(self), *old(self)),
            progressed(*final(self), *old(self)),
            (stmt_view(st), final(self).state()) == let_spec(old(self).text(), old(self).state()),
    {
        let ghost s = self.text();
        let ghost st0 = self.state();
        let start = self.bump();
        self.expect_kw(&start, "let", "expected a let keyword");
        let ghost st1 = self.state();
        let ident_tok = self.bump();
        let ident_span = ident_tok.span;
        let ident = match ident_tok.inner {
            TokenKind::Ident(i) => Some(i),
            TokenKind::Error => None,
            _ => {
                self.error("expected an identifier", ident_span);
                None
            }
        };
        let ghost st2b = self.state();
        let ty = if matches!(self.current.inner, TokenKind::Colon) {
            self.bump();
            Some(self.parse_ty())
        } else {
            None
        };
        let ghost st3 = self.state();
        proof {
            let (tm, st3x) = if st2b.tok == KindModel::Plain(TokenKind::Colon) {
                let (t, st3) = ty_spec(s, advance(s, st2b));
                (Some(t), st3)
            } else {
                (None, st2b)
            };
            assert(opt_ty_view(ty) == tm && st3 == st3x);
        }
        let val = if matches!(self.current.inner, TokenKind::Eq) {
            self.bump();
            Some(self.parse_expr())
        } else {
            None
        };
        let ghost st4 = self.state();
        proof {
            let (vm, st4x) = if st3.tok == KindModel::Plain(TokenKind::Eq) {
                let (e, st4) = expr_spec(s, advance(s, st3));
                (Some(e), st4)
            } else {
                (None, st3)
            };
            assert(opt_expr_view(val) == vm && st4 == st4x);
        }
        let end = self.bump();
        self.expect_plain(&end, &TokenKind::Semicolon, "expected a semicolon");
        let ghost tv = opt_ty_view(ty);
        let ghost vv = opt_expr_view(val);
        match ident {
            Some(ident) => {
                let ghost iv = ident@;
                let r = Spanned::new(
                    StmtKind::Let { name: Spanned::new(ident, ident_span), ty, val },
                    start.span.with_hi(end.span.hi),
                );
                proof {
                    assert(st1.tok == KindModel::Ident(iv));
                    assert(stmt_view(r) == StmtM { kind: StmtKindM::Let(iv, st1.span, tv, vv), span: Span { lo: st0.span.lo, hi: st4.span.hi } });
                }
                r
            }
            None => {
                proof { assert(!(st1.tok is Ident)); }
                Spanned::new(StmtKind::Error, start.span.with_hi(end.span.hi))
            }
        }
    }

    /// A block of statements in braces; the current token opens it.
    fn parse_block(&mut self) -> (st: Stmt)
        requires
            old(self).wf(),
            !old(self).at_eof(),
        ensures
            kept(*final(self), *old(self)),
            progressed(*final(self), *old(self)),
            (stmt_view(st), final(self).state()) == block_spec(old(self).text(), old(self).state()),
        decreases old(self).remaining(), 8nat,
    {
        let ghost s = self.text();
        proof { self.lemma_remaining(); }
        let start = self.bump();
        self.expect_plain(&start, &TokenKind::LBrace, "expected an opening brace");
        proof { self.lemma_remaining(); }
        let ghost target = stmts_loop(s, self.state(), Seq::empty());
        let mut stmts: Vec<Stmt> = Vec::new();
        proof { assert(stmts_view(stmts) =~= Seq::<StmtM>::empty()); }
        while !matches!(self.current.inner, TokenKind::RBrace | TokenKind::Eof)
            invariant
                kept(*self, *old(self)),
                self.remaining() < old(self).remaining(),
                s == self.text(),
                stmts_loop(s, self.state(), stmts_view(stmts)) == target,
            decreases self.remaining(),
        {
            let ghost acc = stmts_view(stmts);
            proof { self.lemma_remaining(); }
            let x = self.parse_stmt();
            let ghost xv = stmt_view(x);
            stmts.push(x);
            proof {
                assert(stmts_view(stmts) =~= acc.push(xv));
                self.lemma_remaining();
            }
        }
        let ghost sv = stmts_view(stmts);
        let end = self.bump();
        self.expect_plain(&end, &TokenKind::RBrace, "expected a closing brace");
        let r = Spanned::new(StmtKind::Block(stmts), start.span.with_hi(end.span.hi));
        proof { assert(stmt_view(r).kind == StmtKindM::Block(sv)); }
        r
    }

    /// An `if` statement with an optional `else` branch; the current token is `if`.
    fn parse_if(&mut self) -> (st: Stmt)
        requires
            old(self).wf(),
            !old(self).at_eof(),
        ensures
            kept(*final(self), *old(self)),
            progressed(*final(self), *old(self)),
            (stmt_view(st), final(self).state()) == if_spec(old(self).text(), old(self).state()),
        decreases old(self).remaining(), 8nat,
    {
        let ghost s = self.text();
        let ghost st0 = self.state();
        proof { self.lemma_remaining(); }
        let start = self.bump();
        self.expect_kw(&start, "if", "expected an if keyword");
        let cond = self.parse_expr();
        proof { self.lemma_remaining(); }
        let then_branch = Box::new(self.parse_stmt());
        let ghost st3 = self.state();
        let else_branch = if self.current_is("else") {
            proof { assert(st3.tok == KindModel::Ident("else"@)); }
            self.bump();
            proof { self.lemma_remaining(); }
            Some(Box::new(self.parse_stmt()))
        } else {
            proof { assert(st3.tok != KindModel::Ident("else"@)); }
            None
        };
        let end_span = match &else_branch {
            Some(stmt) => stmt.span,
            None => then_branch.span,
        };
        Spanned::new(StmtKind::If { cond, then_branch, else_branch }, start.span.with_hi(end_span.hi))
    }

    /// A `while` loop; the current token is `while`.
    fn parse_while(&mut self) -> (st: Stmt)
        requires
            old(self).wf(),
            !old(self).at_eof(),
        ensures
            kept(*final(self), *old(self)),
            progressed(*final(self), *old(self)),
            (stmt_view(st), final(self).state()) == while_spec(old(self).text(), old(self).state()),
        decreases old(self).remaining(), 8nat,
    {
        proof { self.lemma_remaining(); }
        let start = self.bump();
        self.expect_kw(&start, "while", "expected a while keyword");
        let cond = self.parse_expr();
        proof { self.lemma_remaining(); }
        let body = Box::new(self.parse_stmt());
        let span = start.span.with_hi(body.span.hi);
        Spanned::new(StmtKind::While { cond, body }, span)
    }

    /// An expression followed by a semicolon.
    fn parse_expr_stmt(&mut self) -> (st: Stmt)
        requires
            old(self).wf(),
        ensures
            kept(*final(self), *old(self)),
            progressed(*final(self), *old(self)),
            (stmt_view(st), final(self).state()) == expr_stmt_spec(old(self).text(), old(self).state()),
    {
        let expr = self.parse_expr();
        let semi = self.bump();
        match semi.inner {
            TokenKind::Semicolon => {
                let span = expr.span.with_hi(semi.span.hi);
                Spanned::new(StmtKind::Expr(expr), span)
            }
            TokenKind::Error => Spanned::new(StmtKind::Error, semi.span),
            _ => {
                self.error("expected a semicolon", semi.span);
                Spanned::new(StmtKind::Error, semi.span)
            }
        }
    }
}


impl Parser {
    /// An operand of an inline assembly instruction: a register or an immediate.
    fn parse_asm_operand(&mut self) -> (o: Spanned<AsmOperand>)
        requires
            old(self).wf(),
        ensures
            kept(*final(self), *old(self)),
            progressed(*final(self), *old(self)),
            ((o.inner, o.span), final(self).state()) == asm_operand_spec(old(self).text(), old(self).state()),
    {
        let ghost st0 = self.state();
        let reg = match &self.current.inner {
            TokenKind::Ident(name) => Register::from_name(name.as_str()),
            _ => None,
        };
        proof {
            match st0.tok {
                KindModel::Ident(n) => { assert(reg == register_named(n)); },
                _ => { assert(reg is None); },
            }
        }
        if let Some(reg) = reg {
            let tok = self.bump();
            return Spanned::new(AsmOperand::Reg(reg), tok.span);
        }
        match self.current.inner {
            TokenKind::IntLit(_) => {
                let tok = self.bump();
                let n = match tok.inner {
                    TokenKind::IntLit(n) => n,
                    _ => 0,
                };
                Spanned::new(AsmOperand::Imm(n), tok.span)
            }
            TokenKind::Error => {
                let tok = self.bump();
                Spanned::new(AsmOperand::Imm(0), tok.span)
            }
            _ => {
                let tok = self.bump();
                self.error("expected a register or an immediate", tok.span);
                Spanned::new(AsmOperand::Error, tok.span)
            }
        }
    }

    /// `in(expr)` or `out(place)` after `reg =`; the current token is `=`.
    fn parse_asm_binding(&mut self, reg: Register, name_span: Span) -> (i: Spanned<AsmItem>)
        requires
            old(self).wf(),
        ensures
            kept(*final(self), *old(self)),
            progressed(*final(self), *old(self)),
            (asm_item_view(i), final(self).state()) == asm_binding_spec(old(self).text(), old(self).state(), reg, name_span),
    {
        let ghost s = self.text();
        let ghost st1 = self.state();
        self.bump();
        let ghost st2 = self.state();
        let dir_tok = self.bump();
        let dir_span = dir_tok.span;
        let dir = match dir_tok.inner {
            TokenKind::Ident(d) => Some(d),
            TokenKind::Error => None,
            _ => {
                self.error("expected `in` or `out`", dir_span);
                None
            }
        };
        let lparen = self.bump();
        self.expect_plain(&lparen, &TokenKind::LParen, "expected an opening parenthesis");
        let ghost st4 = self.state();
        let is_in = match &dir {
            Some(d) => str_eq(d.as_str(), "in"),
            None => false,
        };
        let is_out = match &dir {
            Some(d) => str_eq(d.as_str(), "out"),
            None => false,
        };
        proof {
            assert(is_in == (st2.tok == KindModel::Ident("in"@)));
            assert(is_out == (st2.tok == KindModel::Ident("out"@)));
            assert(dir is Some <==> st2.tok is Ident);
        }
        let item = if is_in {
            let expr = self.parse_expr();
            AsmItem::In { reg: Spanned::new(reg, name_span), expr }
        } else if is_out {
            let lval = self.parse_lvalue();
            AsmItem::Out { reg: Spanned::new(reg, name_span), lval: lval.inner }
        } else {
            if dir.is_some() {
                self.error("expected `in` or `out`", dir_span);
            }
            let _ = self.parse_expr();
            AsmItem::Error
        };
        let ghost st5 = self.state();
        proof {
            let (kind, st5x) = if st2.tok == KindModel::Ident("in"@) {
                let (e, st5) = expr_spec(s, st4);
                (AsmKindM::In(reg, name_span, e), st5)
            } else if st2.tok == KindModel::Ident("out"@) {
                let (l, lspan, st5) = lvalue_spec(s, st4);
                (AsmKindM::Out(reg, name_span, l), st5)
            } else {
                let st4b = if st2.tok is Ident { report(st4, "expected `in` or `out`"@, st2.span) } else { st4 };
                (AsmKindM::Error, expr_spec(s, st4b).1)
            };
            assert(st5 == st5x);
            assert(asm_item_view(Spanned { inner: item, span: name_span }).kind == kind);
        }
        let rparen = self.bump();
        self.expect_plain(&rparen, &TokenKind::RParen, "expected a closing parenthesis");
        Spanned::new(item, name_span.with_hi(rparen.span.hi))
    }

    /// An item of inline assembly: `rN = in(expr)`, `rN = out(place)`, or an
    /// instruction with its operands.
    fn parse_asm_item(&mut self) -> (i: Spanned<AsmItem>)
        requires
            old(self).wf(),
        ensures
            kept(*final(self), *old(self)),
            progressed(*final(self), *old(self)),
            (asm_item_view(i), final(self).state()) == asm_item_spec(old(self).text(), old(self).state()),
    {
        let ghost s = self.text();
        let ghost st0 = self.state();
        let name_tok = self.bump();
        let name_span = name_tok.span;
        let name = match name_tok.inner {
            TokenKind::Ident(name) => name,
            other => {
                if !matches!(other, TokenKind::Error) {
                    self.error("expected a register name or an instruction mnemonic", name_span);
                }
                let r = Spanned::new(
                    AsmItem::Instr { mnemonic: Spanned::new(String::new(), name_span), args: Vec::new() },
                    name_span,
                );
                proof { assert(operands_view(Seq::<Spanned<AsmOperand>>::empty()) =~= Seq::<(AsmOperand, Span)>::empty()); }
                return r;
            }
        };
        let ghost st1 = self.state();
        let ghost nv = name@;
        proof { assert(st0.tok == KindModel::Ident(nv)); }
        let reg = Register::from_name(name.as_str());
        if let Some(reg) = reg {
            if matches!(self.current.inner, TokenKind::Eq) {
                return self.parse_asm_binding(reg, name_span);
            }
        }
        let ghost target = operands_loop(s, st1, Seq::empty(), name_span.hi);
        let mnemonic = Spanned::new(name, name_span);
        let mut args: Vec<Spanned<AsmOperand>> = Vec::new();
        let mut last_hi = name_span.hi;
        proof { assert(operands_view(args@) =~= Seq::<(AsmOperand, Span)>::empty()); }
        while !matches!(self.current.inner, TokenKind::Comma | TokenKind::RBrace | TokenKind::Eof)
            invariant
                kept(*self, *old(self)),
                progressed(*self, *old(self)),
                s == self.text(),
                operands_loop(s, self.state(), operands_view(args@), last_hi) == target,
            decreases self.remaining(),
        {
            let ghost acc = operands_view(args@);
            proof { self.lemma_remaining(); }
            let operand = self.parse_asm_operand();
            proof { self.lemma_remaining(); }
            last_hi = operand.span.hi;
            let ghost ov = (operand.inner, operand.span);
            args.push(operand);
            proof { assert(operands_view(args@) =~= acc.push(ov)); }
        }
        let ghost av = operands_view(args@);
        let r = Spanned::new(AsmItem::Instr { mnemonic, args }, name_span.with_hi(last_hi));
        proof { assert(asm_item_view(r).kind == AsmKindM::Instr(nv, name_span, av)); }
        r
    }

    /// An inline assembly statement: items in braces separated by commas;
    /// the current token is `asm`.
    fn parse_asm(&mut self) -> (st: Stmt)
        requires
            old(self).wf(),
            !old(self).at_eof(),
        ensures
            kept(*final(self), *old(self)),
            progressed(*final(self), *old(self)),
            (stmt_view(st), final(self).state()) == asm_spec(old(self).text(), old(self).state()),
    {
        let ghost s = self.text();
        let start = self.bump();
        self.expect_kw(&start, "asm", "expected an asm keyword");
        let lbrace = self.bump();
        self.expect_plain(&lbrace, &TokenKind::LBrace, "expected an opening brace");
        let ghost target = asm_items_loop(s, self.state(), Seq::empty());
        let mut asm_items: Vec<Spanned<AsmItem>> = Vec::new();
        proof { assert(asm_items_view(asm_items@) =~= Seq::<AsmItemM>::empty()); }
        while !matches!(self.current.inner, TokenKind::RBrace)
            invariant_except_break
                asm_items_loop(s, self.state(), asm_items_view(asm_items@)) == target,
            invariant
                kept(*self, *old(self)),
                self.remaining() < old(self).remaining(),
                s == self.text(),
            ensures
                target == (asm_items_view(asm_items@), self.state()),
            decreases self.remaining(),
        {
            let ghost acc = asm_items_view(asm_items@);
            proof { self.lemma_remaining(); }
            let item = self.parse_asm_item();
            let ghost iv = asm_item_view(item);
            asm_items.push(item);
            proof {
                assert(asm_items_view(asm_items@) =~= acc.push(iv));
                self.lemma_remaining();
            }
            if matches!(self.current.inner, TokenKind::Comma) {
                self.bump();
                proof { self.lemma_remaining(); }
            } else {
                break;
            }
        }
        let ghost iv = asm_items_view(asm_items@);
        let end = self.bump();
        self.expect_plain(&end, &TokenKind::RBrace, "expected a closing brace");
        let r = Spanned::new(StmtKind::Asm(asm_items), start.span.with_hi(end.span.hi));
        proof { assert(stmt_view(r).kind == StmtKindM::Asm(iv)); }
        r
    }

    /// A `return` statement with an optional value; the current token is `return`.
    fn parse_return(&mut self) -> (st: Stmt)
        requires
            old(self).wf(),
            !old(self).at_eof(),
        ensures
            kept(*final(self), *old(self)),
            progressed(*final(self), *old(self)),
            (stmt_view(st), final(self).state()) == return_spec(old(self).text(), old(self).state()),
    {
        let start = self.bump();
        self.expect_kw(&start, "return", "expected a return keyword");
        if matches!(self.current.inner, TokenKind::Semicolon) {
            let end = self.bump();
            return Spanned::new(StmtKind::Return(None), start.span.with_hi(end.span.hi));
        }
        let expr = self.parse_expr();
        let end = self.bump();
        match end.inner {
            TokenKind::Semicolon => {
                let span = expr.span.with_hi(end.span.hi);
                Spanned::new(StmtKind::Return(Some(expr)), span)
            }
            TokenKind::Error => Spanned::new(StmtKind::Error, end.span),
            _ => {
                self.error("expected a semicolon", end.span);
                Spanned::new(StmtKind::Error, end.span)
            }
        }
    }

    /// A statement, chosen by its first token.
    fn parse_stmt(&mut self) -> (st: Stmt)
        requires
            old(self).wf(),
        ensures
            kept(*final(self), *old(self)),
            progressed(*final(self), *old(self)),
            (stmt_view(st), final(self).state()) == stmt_spec(old(self).text(), old(self).state()),
        decreases old(self).remaining(), 9nat,
    {
        let ghost st0 = self.state();
        if self.current_is("let") {
            self.parse_let()
        } else if matches!(self.current.inner, TokenKind::LBrace) {
            proof { assert(st0.tok != KindModel::Ident("let"@)); }
            self.parse_block()
        } else if self.current_is("if") {
            self.parse_if()
        } else if self.current_is("while") {
            self.parse_while()
        } else if self.current_is("asm") {
            self.parse_asm()
        } else if self.current_is("return") {
            self.parse_return()
        } else {
            self.parse_expr_stmt()
        }
    }
}


impl Parser {
    /// An `import` of a module by name; the current token is `import`.
    fn parse_import(&mut self) -> (it: Item)
        requires
            old(self).wf(),
            !old(self).at_eof(),
        ensures
            kept(*final(self), *old(self)),
            progressed(*final(self), *old(self)),
            ({
                let (name, span, st3) = import_spec(old(self).text(), old(self).state());
                &&& final(self).state() == st3
                &&& it.span == span
                &&& match name {
                    Some(n) => it.inner matches ItemKind::Import(m) && m.inner@ == n.0 && m.span == n.1,
                    None => it.inner is Error,
                }
            }),
    {
        let start = self.bump();
        self.expect_kw(&start, "import", "expected an import keyword");
        let name_tok = self.bump();
        let name_span = name_tok.span;
        let name = match name_tok.inner {
            TokenKind::Ident(i) => Some(Spanned::new(i, name_span)),
            TokenKind::Error => None,
            _ => {
                self.error("expected a module name", name_span);
                None
            }
        };
        let end = self.bump();
        self.expect_plain(&end, &TokenKind::Semicolon, "expected a semicolon");
        match name {
            Some(name) => Spanned::new(ItemKind::Import(name), start.span.with_hi(end.span.hi)),
            None => Spanned::new(ItemKind::Error, start.span.with_hi(end.span.hi)),
        }
    }

    /// The types of an external function's parameters, up to the closing parenthesis.
    fn parse_param_types(&mut self) -> (params: Vec<Ty>)
        requires
            old(self).wf(),
        ensures
            kept(*final(self), *old(self)),
            (tys_model(params), final(self).state()) == ty_list_spec(old(self).text(), old(self).state()),
        decreases old(self).remaining(), 2nat,
    {
        let ghost s = self.text();
        let ghost st0 = self.state();
        let mut params: Vec<Ty> = Vec::new();
        proof { assert(tys_model(params) + ty_list_spec(s, st0).0 =~= ty_list_spec(s, st0).0); }
        while !matches!(self.current.inner, TokenKind::RParen)
            invariant_except_break
                ty_list_spec(s, st0) == {
                    let (r, f) = ty_list_spec(s, self.state());
                    (tys_model(params) + r, f)
                },
            invariant
                kept(*self, *old(self)),
                s == self.text(),
            ensures
                (self.current.inner is RParen && ty_list_spec(s, st0) == {
                    let (r, f) = ty_list_spec(s, self.state());
                    (tys_model(params) + r, f)
                }) || ty_list_spec(s, st0) == (tys_model(params), self.state()),
            decreases self.remaining(),
        {
            let ghost p0 = tys_model(params);
            let ghost sti = self.state();
            proof { self.lemma_remaining(); }
            let ty = self.parse_ty();
            params.push(ty);
            let ghost st1 = self.state();
            proof {
                self.lemma_remaining();
                assert(tys_model(params) =~= p0.push(ty_model(ty)));
            }
            if matches!(self.current.inner, TokenKind::Comma) {
                self.bump();
                proof {
                    self.lemma_remaining();
                    let st2 = self.state();
                    assert(measure(s, st2) < measure(s, sti));
                    assert(ty_spec(s, sti) == (ty_model(ty), st1));
                    assert(sti.tok != KindModel::Plain(TokenKind::RParen));
                    assert(st1.tok == KindModel::Plain(TokenKind::Comma));
                    assert(st2 == advance(s, st1));
                    lemma_ty_list_more(s, sti, ty_model(ty), st1);
                    assert(tys_model(params) + ty_list_spec(s, st2).0 =~= p0 + (seq![ty_model(ty)] + ty_list_spec(s, st2).0));
                }
            } else {
                proof {
                    assert(ty_spec(s, sti) == (ty_model(ty), st1));
                    assert(sti.tok != KindModel::Plain(TokenKind::RParen));
                    assert(st1.tok != KindModel::Plain(TokenKind::Comma));
                    lemma_ty_list_last(s, sti, ty_model(ty), st1);
                    assert(p0 + seq![ty_model(ty)] =~= tys_model(params));
                }
                break;
            }
        }
        proof {
            if self.current.inner is RParen && ty_list_spec(s, st0) == {
                let (r, f) = ty_list_spec(s, self.state());
                (tys_model(params) + r, f)
            } {
                lemma_ty_list_end(s, self.state());
                assert(tys_model(params) + Seq::<TyModel>::empty() =~= tys_model(params));
            }
        }
        params
    }

    /// The names and types of a defined function's parameters, up to the
    /// closing parenthesis; a name that is missing is `None`.
    #[verifier::rlimit(60)]
    fn parse_params(&mut self) -> (params: Vec<(Option<Spanned<String>>, Ty)>)
        requires
            old(self).wf(),
        ensures
            kept(*final(self), *old(self)),
            (params_view(params@), final(self).state()) == params_spec(old(self).text(), old(self).state()),
    {
        let ghost s = self.text();
        let ghost st0 = self.state();
        let mut params: Vec<(Option<Spanned<String>>, Ty)> = Vec::new();
        proof { assert(params_view(params@) + params_spec(s, st0).0 =~= params_spec(s, st0).0); }
        while !matches!(self.current.inner, TokenKind::RParen)
            invariant_except_break
                params_spec(s, st0) == {
                    let (r, f) = params_spec(s, self.state());
                    (params_view(params@) + r, f)
                },
            invariant
                kept(*self, *old(self)),
                s == self.text(),
            ensures
                params_spec(s, st0) == (params_view(params@), self.state()),
            decreases self.remaining(),
        {
            let ghost sti = self.state();
            let ghost p0 = params_view(params@);
            proof { self.lemma_remaining(); }
            let name_tok = self.bump();
            let name_span = name_tok.span;
            let name = match name_tok.inner {
                TokenKind::Ident(i) => Some(Spanned::new(i, name_span)),
                TokenKind::Error => None,
                _ => {
                    self.error("expected an identifier", name_span);
                    None
                }
            };
            let colon = self.bump();
            self.expect_plain(&colon, &TokenKind::Colon, "expected a colon");
            let ty = self.parse_ty();
            let ghost entry = (param_name(sti.tok, sti.span), ty_model(ty));
            params.push((name, ty));
            proof {
                self.lemma_remaining();
                assert(params_view(params@) =~= p0.push(entry));
            }
            if matches!(self.current.inner, TokenKind::Comma) {
                self.bump();
                proof {
                    self.lemma_remaining();
                    assert(params_view(params@) + params_spec(s, self.state()).0 =~= p0 + (seq![entry] + params_spec(s, self.state()).0));
                }
            } else {
                proof { assert(p0 + seq![entry] =~= params_view(params@)); }
                break;
            }
        }
        proof {
            if matches!(self.current.inner, TokenKind::RParen) {
                self.lemma_remaining();
                assert(params_view(params@) + Seq::<(Option<(Seq<char>, Span)>, TyModel)>::empty() =~= params_view(params@));
            }
        }
        params
    }

    /// The closing parenthesis of a parameter list and the optional return type.
    fn parse_ret(&mut self) -> (ret: Ty)
        requires
            old(self).wf(),
        ensures
            kept(*final(self), *old(self)),
            (ty_model(ret), final(self).state()) == ret_spec(old(self).text(), old(self).state()),
    {
        let rparen = self.bump();
        self.expect_plain(&rparen, &TokenKind::RParen, "expected a closing parenthesis");
        if matches!(self.current.inner, TokenKind::Colon) {
            self.bump();
            self.parse_ty()
        } else {
            Ty::Unit
        }
    }

    /// A function: external (`func ext name(types): ret;`) or defined
    /// (`func name(params): ret body`); the current token is `func`.
    fn parse_func(&mut self) -> (it: Item)
        requires
            old(self).wf(),
            !old(self).at_eof(),
        ensures
            kept(*final(self), *old(self)),
            progressed(*final(self), *old(self)),
            func_read(old(self).text(), old(self).state(), it, final(self).state()),
    {
        let ghost s = self.text();
        let ghost st0 = self.state();
        let start = self.bump();
        self.expect_kw(&start, "func", "expected a func keyword");
        let ghost st1 = self.state();
        let is_extern = if self.current_is("ext") {
            self.bump();
            true
        } else {
            false
        };
        let ghost st2 = self.state();
        proof {
            assert(is_extern == (st1.tok == KindModel::Ident("ext"@)));
        }
        let name_tok = self.bump();
        let name_span = name_tok.span;
        let name = match name_tok.inner {
            TokenKind::Ident(i) => Some(i),
            TokenKind::Error => None,
            _ => {
                self.error("expected an identifier", name_span);
                None
            }
        };
        let ghost st3b = self.state();
        let lparen = self.bump();
        self.expect_plain(&lparen, &TokenKind::LParen, "expected an opening parenthesis");
        let ghost st5 = self.state();
        proof {
            let head = func_head(s, st0);
            assert(st5 == head.3);
            assert(is_extern == head.0);
            assert(start.span == head.2);
            match head.1 {
                Some(n) => { assert(name matches Some(x) && x@ == n.0 && name_span == n.1); },
                None => { assert(name is None); },
            }
            assert(match head.1 {
                Some(n) => name matches Some(x) && x@ == n.0 && name_span == n.1,
                None => name is None,
            });
        }
        if is_extern {
            let params = self.parse_param_types();
            let ret = self.parse_ret();
            let ghost st7 = self.state();
            proof {
                let (tys, st6x) = ty_list_spec(s, st5);
                assert(tys == tys_model(params));
                assert(ret_spec(s, st6x) == (ty_model(ret), st7));
            }
            let end = self.bump();
            self.expect_plain(&end, &TokenKind::Semicolon, "expected a semicolon");
            proof {
                assert(self.state() == expect(advance(s, st7), st7.tok, TokenKind::Semicolon, "expected a semicolon"@, st7.span));
                assert(end.span == st7.span);
            }
            let ghost tys = tys_model(params);
            let ghost rm = ty_model(ret);
            let it = match name {
                Some(name) => Spanned::new(
                    ItemKind::FunctionExternal { name: Spanned::new(name, name_span), params, ret },
                    start.span.with_hi(end.span.hi),
                ),
                None => Spanned::new(ItemKind::Error, start.span.with_hi(end.span.hi)),
            };
            proof {
                let head = func_head(s, st0);
                assert(head.0);
                assert(it.span == (Span { lo: head.2.lo, hi: st7.span.hi }));
                assert(self.state() == expect(advance(s, st7), st7.tok, TokenKind::Semicolon, "expected a semicolon"@, st7.span));
                assert(ty_list_spec(s, head.3).0 == tys);
                assert(ret_spec(s, ty_list_spec(s, head.3).1) == (rm, st7));
            }
            it
        } else {
            let params = self.parse_params();
            let ghost pv = params_view(params@);
            let ghost st6 = self.state();
            proof { assert(params_spec(s, st5) == (pv, st6)); }
            let ret = self.parse_ret();
            proof { assert(ret_spec(s, st6).0 == ty_model(ret)); }
            let ghost st7 = self.state();
            let body = self.parse_stmt();
            let ghost bv = stmt_view(body);
            proof { assert(stmt_spec(s, st7) == (bv, self.state())); }
            let span = start.span.with_hi(body.span.hi);
            match name {
                Some(name) => {
                    let ghost p0 = params@;
                    let mut rest = params;
                    let mut params2: Vec<(Spanned<String>, Ty)> = Vec::new();
                    let mut complete = true;
                    let ghost mut i: int = 0;
                    proof { assert(p0.subrange(0, p0.len() as int) =~= p0); }
                    while rest.len() > 0
                        invariant_except_break
                            rest@ == p0.subrange(i, p0.len() as int),
                            complete,
                        invariant
                            0 <= i <= p0.len(),
                            pv == params_view(p0),
                            complete ==> params2@.len() == i,
                            complete ==> forall|k: int| 0 <= k < i ==>
                                pv[k] == (Some(((#[trigger] params2@[k]).0.inner@, params2@[k].0.span)), ty_model(params2@[k].1)),
                            !complete ==> exists|k: int| 0 <= k < p0.len() && (#[trigger] pv[k]).0 is None,
                        ensures
                            0 <= i <= p0.len(),
                            pv == params_view(p0),
                            complete ==> params2@.len() == i && i == p0.len(),
                            complete ==> forall|k: int| 0 <= k < i ==>
                                pv[k] == (Some(((#[trigger] params2@[k]).0.inner@, params2@[k].0.span)), ty_model(params2@[k].1)),
                            !complete ==> exists|k: int| 0 <= k < p0.len() && (#[trigger] pv[k]).0 is None,
                        decreases rest@.len(),
                    {
                        let ghost r0 = rest@;
                        let (pname, ty) = rest.remove(0);
                        proof {
                            assert(rest@ =~= p0.subrange(i + 1, p0.len() as int));
                            assert(r0[0] == p0[i]);
                            assert(pv[i] == (match p0[i].0 { Some(n) => Some((n.inner@, n.span)), None => None::<(Seq<char>, Span)> }, ty_model(p0[i].1)));
                        }
                        match pname {
                            Some(pname) => params2.push((pname, ty)),
                            None => {
                                complete = false;
                                proof { assert(pv[i].0 is None); }
                                break;
                            }
                        }
                        proof { i = i + 1; }
                    }
                    if complete {
                        proof { assert(params2@.len() == pv.len()); }
                        let ghost p2 = params2@;
                        let ghost nm = name@;
                        let it = Spanned::new(
                            ItemKind::FunctionDefined { name: Spanned::new(name, name_span), params: params2, ret, body },
                            span,
                        );
                        proof {
                            let head = func_head(s, st0);
                            assert(!head.0);
                            assert(head.1 == Some((nm, name_span)));
                            assert(params_spec(s, head.3).0 == pv);
                            assert(it.span.lo == head.2.lo);
                        }
                        it
                    } else {
                        proof {
                            let head = func_head(s, st0);
                            assert(params_spec(s, head.3).0 == pv);
                        }
                        Spanned::new(ItemKind::Error, span)
                    }
                }
                None => Spanned::new(ItemKind::Error, span),
            }
        }
    }

    /// An item: an import or a function.
    fn parse_item(&mut self) -> (it: Item)
        requires
            old(self).wf(),
            !old(self).at_eof(),
        ensures
            kept(*final(self), *old(self)),
            progressed(*final(self), *old(self)),
            item_read(old(self).text(), old(self).state(), it, final(self).state()),
    {
        let ghost s = self.text();
        let ghost st0 = self.state();
        if self.current_is("import") {
            self.parse_import()
        } else if self.current_is("func") {
            self.parse_func()
        } else if matches!(self.current.inner, TokenKind::Error) {
            let tok = self.bump();
            Spanned::new(ItemKind::Error, tok.span)
        } else {
            let tok = self.bump();
            self.error("expected an item", tok.span);
            Spanned::new(ItemKind::Error, tok.span)
        }
    }

    /// The next item, or `None` at the end of the file; each item read
    /// leaves strictly less to read.
    pub fn maybe_item(&mut self) -> (it: Option<Item>)
        requires
            old(self).wf(),
        ensures
            final(self).wf(),
            final(self).same_source(old(self)),
            it is None <==> old(self).at_eof(),
            it is None ==> final(self).remaining() == old(self).remaining(),
            it is None ==> *final(self) == *old(self),
            it is Some ==> final(self).remaining() < old(self).remaining(),
            old(self).at_eof() <==> old(self).state().tok == KindModel::Plain(TokenKind::Eof),
            it matches Some(x) ==> item_read(old(self).text(), old(self).state(), x, final(self).state()),
    {
        if matches!(self.current.inner, TokenKind::Eof) {
            None
        } else {
            Some(self.parse_item())
        }
    }
}


impl Parser {
    /// Every item up to the end of the file, in order.
    pub fn parse_items(&mut self) -> (p: super::ast::Program)
        requires
            old(self).wf(),
        ensures
            final(self).wf(),
            final(self).at_eof(),
            final(self).same_source(old(self)),
            p.items@.len() == 0 <==> old(self).at_eof(),
            exists|sts: Seq<PState>| #![trigger items_read(old(self).text(), sts, p.items@)]
                items_read(old(self).text(), sts, p.items@) && sts[0] == old(self).state()
                && sts.last() == final(self).state(),
    {
        let ghost s = self.text();
        let mut items: Vec<Item> = Vec::new();
        let ghost mut sts: Seq<PState> = seq![self.state()];
        loop
            invariant
                self.wf(),
                self.same_source(old(self)),
                s == old(self).text(),
                items@.len() == 0 ==> *self == *old(self),
                items@.len() > 0 ==> !old(self).at_eof(),
                sts.len() == items@.len() + 1,
                sts[0] == old(self).state(),
                sts.last() == self.state(),
                forall|i: int| 0 <= i < items@.len() ==> #[trigger] item_read(s, sts[i], items@[i], sts[i + 1]),
                forall|i: int| 0 <= i < items@.len() ==> (#[trigger] sts[i]).tok != KindModel::Plain(TokenKind::Eof),
            ensures
                self.at_eof(),
                s == old(self).text(),
                items@.len() == 0 ==> *self == *old(self),
                items@.len() > 0 ==> !old(self).at_eof(),
                sts.len() == items@.len() + 1,
                sts[0] == old(self).state(),
                sts.last() == self.state(),
                self.state().tok == KindModel::Plain(TokenKind::Eof),
                forall|i: int| 0 <= i < items@.len() ==> #[trigger] item_read(s, sts[i], items@[i], sts[i + 1]),
                forall|i: int| 0 <= i < items@.len() ==> (#[trigger] sts[i]).tok != KindModel::Plain(TokenKind::Eof),
            decreases self.remaining(),
        {
            let ghost st_before = self.state();
            let ghost n = items@.len();
            match self.maybe_item() {
                Some(item) => {
                    let ghost it = item;
                    items.push(item);
                    proof {
                        let old_sts = sts;
                        sts = sts.push(self.state());
                        assert forall|i: int| 0 <= i < items@.len() implies #[trigger] item_read(s, sts[i], items@[i], sts[i + 1]) by {
                            if i < n {
                                assert(sts[i] == old_sts[i] && sts[i + 1] == old_sts[i + 1] && items@[i] == items@[i]);
                            } else {
                                assert(sts[i] == st_before && items@[i] == it);
                            }
                        }
                        assert forall|i: int| 0 <= i < items@.len() implies (#[trigger] sts[i]).tok != KindModel::Plain(TokenKind::Eof) by {
                            if i < n {
                                assert(sts[i] == old_sts[i]);
                            } else {
                                assert(sts[i] == st_before);
                            }
                        }
                    }
                }
                None => break,
            }
        }
        let p = super::ast::Program { items };
        proof { assert(items_read(s, sts, p.items@)); }
        p
    }
}

/// The names and spans of the modules some items import, in order.
pub open spec fn imports_spec(items: Seq<Item>) -> Seq<(Seq<char>, Span)>
    decreases items.len(),
{
    if items.len() == 0 {
        Seq::empty()
    } else {
        imports_spec(items.drop_last()) + match items.last().inner {
            ItemKind::Import(n) => seq![(n.inner@, n.span)],
            _ => Seq::empty(),
        }
    }
}

/// The modules a program imports, by name, in order.
pub fn import_names(program: &super::ast::Program) -> (names: Vec<Spanned<String>>)
    ensures
        names@.len() == imports_spec(program.items@).len(),
        forall|k: int| 0 <= k < names@.len() ==>
            ((#[trigger] names@[k]).inner@, names@[k].span) == imports_spec(program.items@)[k],
{
    let mut names: Vec<Spanned<String>> = Vec::new();
    let mut i: usize = 0;
    let ghost items = program.items@;
    proof { assert(items.take(0) =~= Seq::<Item>::empty()); }
    while i < program.items.len()
        invariant
            i <= items.len(),
            items == program.items@,
            names@.len() == imports_spec(items.take(i as int)).len(),
            forall|k: int| 0 <= k < names@.len() ==>
                ((#[trigger] names@[k]).inner@, names@[k].span) == imports_spec(items.take(i as int))[k],
        decreases items.len() - i,
    {
        proof { assert(items.take(i + 1).drop_last() =~= items.take(i as int)); }
        if let ItemKind::Import(name) = &program.items[i].inner {
            names.push(Spanned::new(name.inner.clone(), name.span));
        }
        i += 1;
    }
    proof { assert(items.take(items.len() as int) =~= items); }
    names
}

} // verus!
