//! The grammar of Bob statements and expressions, as spec functions from a
//! parser state to what is read and the state after it. Each reading mirrors
//! one parsing function; where a recursive reading would not shrink what is
//! left to read, which never happens, the reading stops.
use vstd::prelude::*;
use super::ast::{register_named, AsmItem, AsmOperand, Expr, ExprKind, LValue, Register, Stmt, StmtKind};
use super::lexer::{KindModel, TokenKind};
use super::op::{BinaryOp, UnaryOp};
use super::parser::{advance, binary_op_of, expect, expect_word, measure, report, ty_spec, PState};
use super::source::{Span, Spanned};
use super::ty::{ty_model, Ty, TyModel};

verus! {

/// The mathematical form of an expression: its kind and span.
pub struct ExprM {
    pub kind: ExprKindM,
    pub span: Span,
}

/// The mathematical form of an expression's kind.
pub enum ExprKindM {
    IntLit(u16),
    CharLit(char),
    StrLit(Seq<char>),
    LValue(Box<LValueM>),
    Ref(Box<LValueM>, Span),
    Path(Seq<(Seq<char>, Span)>),
    Binary(Box<ExprM>, BinaryOp, Box<ExprM>),
    Unary(UnaryOp, Box<ExprM>),
    Assign(Box<LValueM>, Span, Box<ExprM>),
    Call(Box<ExprM>, Seq<ExprM>),
    Error,
}

/// The mathematical form of a place.
pub enum LValueM {
    Var(Seq<char>),
    Deref(Box<ExprM>),
    Error,
}

/// Names with their spans.
pub open spec fn segs_view(v: Seq<Spanned<String>>) -> Seq<(Seq<char>, Span)> {
    v.map_values(|p: Spanned<String>| (p.inner@, p.span))
}

/// An erroneous expression at `span`.
pub open spec fn error_expr(span: Span) -> ExprM {
    ExprM { kind: ExprKindM::Error, span }
}

/// The mathematical form of an expression.
pub open spec fn expr_view(e: Expr) -> ExprM
    decreases e, 2nat,
{
    let kind = match e.inner {
        ExprKind::IntLit(v) => ExprKindM::IntLit(v),
        ExprKind::CharLit(c) => ExprKindM::CharLit(c),
        ExprKind::StrLit(t) => ExprKindM::StrLit(t@),
        ExprKind::LValue(l) => ExprKindM::LValue(Box::new(lval_view(*l))),
        ExprKind::Ref(l) => ExprKindM::Ref(Box::new(lval_view(*l.inner)), l.span),
        ExprKind::Path(segs) => ExprKindM::Path(segs_view(segs@)),
        ExprKind::Binary { left, op, right } => ExprKindM::Binary(Box::new(expr_view(*left)), op, Box::new(expr_view(*right))),
        ExprKind::Unary { op, expr } => ExprKindM::Unary(op, Box::new(expr_view(*expr))),
        ExprKind::Assign { lval, expr } => ExprKindM::Assign(Box::new(lval_view(*lval.inner)), lval.span, Box::new(expr_view(*expr))),
        ExprKind::Call { callee, params } => ExprKindM::Call(Box::new(expr_view(*callee)), exprs_view(params)),
        ExprKind::Error => ExprKindM::Error,
    };
    ExprM { kind, span: e.span }
}

/// The mathematical form of a place.
pub open spec fn lval_view(l: LValue) -> LValueM
    decreases l, 1nat,
{
    match l {
        LValue::Var(n) => LValueM::Var(n@),
        LValue::Deref(e) => LValueM::Deref(Box::new(expr_view(e))),
        LValue::Error => LValueM::Error,
    }
}

/// The mathematical forms of a list of expressions.
pub open spec fn exprs_view(v: Vec<Expr>) -> Seq<ExprM>
    decreases v, 0nat,
{
    Seq::new(v@.len(), |i: int| if 0 <= i < v@.len() { expr_view(v@[i]) } else { error_expr(Span { lo: 0, hi: 0 }) })
}

/// The binary operator a token stands for, and its precedence.
pub open spec fn tok_binary_op(k: KindModel) -> Option<(BinaryOp, u8)> {
    match k {
        KindModel::Plain(t) => binary_op_of(t),
        _ => None,
    }
}

/// The prefix operator a token stands for: `-`, `!` or `~`.
pub open spec fn tok_unary_op(k: KindModel) -> Option<UnaryOp> {
    if k == KindModel::Plain(TokenKind::Minus) {
        Some(UnaryOp::Neg)
    } else if k == KindModel::Plain(TokenKind::Bang) {
        Some(UnaryOp::LogNot)
    } else if k == KindModel::Plain(TokenKind::Tilde) {
        Some(UnaryOp::BitNot)
    } else {
        None
    }
}

/// An integer literal read from state `st`, and the state after it.
pub open spec fn int_spec(s: Seq<char>, st: PState) -> (ExprM, PState) {
    let st1 = advance(s, st);
    match st.tok {
        KindModel::IntLit(v) => (ExprM { kind: ExprKindM::IntLit(v), span: st.span }, st1),
        KindModel::Plain(TokenKind::Error) => (error_expr(st.span), st1),
        _ => (error_expr(st.span), report(st1, "expected an integer literal"@, st.span)),
    }
}

/// A character literal read from state `st`, and the state after it.
pub open spec fn char_spec(s: Seq<char>, st: PState) -> (ExprM, PState) {
    let st1 = advance(s, st);
    match st.tok {
        KindModel::CharLit(c) => (ExprM { kind: ExprKindM::CharLit(c), span: st.span }, st1),
        KindModel::Plain(TokenKind::Error) => (error_expr(st.span), st1),
        _ => (error_expr(st.span), report(st1, "expected a character literal"@, st.span)),
    }
}

/// A string literal read from state `st`, and the state after it.
pub open spec fn str_spec(s: Seq<char>, st: PState) -> (ExprM, PState) {
    let st1 = advance(s, st);
    match st.tok {
        KindModel::StrLit(t) => (ExprM { kind: ExprKindM::StrLit(t), span: st.span }, st1),
        KindModel::Plain(TokenKind::Error) => (error_expr(st.span), st1),
        _ => (error_expr(st.span), report(st1, "expected a string literal"@, st.span)),
    }
}

/// The segments `:: name` of a path from state `st` on, after `segs`, the
/// last of which ends at `last`: the segments, the span of the last token
/// read, and the state after them.
pub open spec fn path_loop(s: Seq<char>, st: PState, segs: Seq<(Seq<char>, Span)>, last: Span) -> (Seq<(Seq<char>, Span)>, Span, PState)
    decreases measure(s, st),
{
    if st.tok != KindModel::Plain(TokenKind::ColonColon) {
        (segs, last, st)
    } else {
        let st1 = advance(s, st);
        let st2 = advance(s, st1);
        match st1.tok {
            KindModel::Ident(i) => if measure(s, st2) < measure(s, st) {
                path_loop(s, st2, segs.push((i, st1.span)), st1.span)
            } else {
                (segs.push((i, st1.span)), st1.span, st2)
            },
            KindModel::Plain(TokenKind::Error) => (segs, st1.span, st2),
            _ => (segs, st1.span, report(st2, "expected an identifier after a double colon"@, st1.span)),
        }
    }
}

/// A name, or a path of names separated by double colons, read from state
/// `st`, and the state after it.
pub open spec fn ident_or_path_spec(s: Seq<char>, st: PState) -> (ExprM, PState) {
    let st1 = advance(s, st);
    match st.tok {
        KindModel::Ident(first) => if st1.tok != KindModel::Plain(TokenKind::ColonColon) {
            (ExprM { kind: ExprKindM::LValue(Box::new(LValueM::Var(first))), span: st.span }, st1)
        } else {
            let (segs, last, st2) = path_loop(s, st1, seq![(first, st.span)], st.span);
            (ExprM { kind: ExprKindM::Path(segs), span: Span { lo: st.span.lo, hi: last.hi } }, st2)
        },
        KindModel::Plain(TokenKind::Error) => (error_expr(st.span), st1),
        _ => (error_expr(st.span), report(st1, "expected an identifier"@, st.span)),
    }
}

/// A parenthesized expression read from state `st`, and the state after it.
pub open spec fn grouped_spec(s: Seq<char>, st: PState) -> (ExprM, PState)
    decreases measure(s, st), 2nat,
{
    let st1 = expect(advance(s, st), st.tok, TokenKind::LParen, "expected an opening parenthesis"@, st.span);
    if measure(s, st1) < measure(s, st) {
        let (e, st2) = expr_spec(s, st1);
        let st3 = expect(advance(s, st2), st2.tok, TokenKind::RParen, "expected a closing parenthesis"@, st2.span);
        (ExprM { kind: e.kind, span: Span { lo: st.span.lo, hi: st2.span.hi } }, st3)
    } else {
        (error_expr(st.span), st1)
    }
}

/// A literal, a name or path, or a parenthesized expression read from
/// state `st`, and the state after it; any other token is an error.
pub open spec fn atom_spec(s: Seq<char>, st: PState) -> (ExprM, PState)
    decreases measure(s, st), 3nat,
{
    match st.tok {
        KindModel::IntLit(_) => int_spec(s, st),
        KindModel::CharLit(_) => char_spec(s, st),
        KindModel::StrLit(_) => str_spec(s, st),
        KindModel::Ident(_) => ident_or_path_spec(s, st),
        KindModel::Plain(TokenKind::LParen) => grouped_spec(s, st),
        KindModel::Plain(TokenKind::Error) => (error_expr(st.span), advance(s, st)),
        _ => (error_expr(st.span), report(advance(s, st), "unexpected token"@, st.span)),
    }
}

/// Argument lists after `callee`, read from state `st`: the calls, and the
/// state after them.
pub open spec fn postfix_loop(s: Seq<char>, st: PState, callee: ExprM) -> (ExprM, PState)
    decreases measure(s, st), 1nat,
{
    if st.tok != KindModel::Plain(TokenKind::LParen) {
        (callee, st)
    } else {
        let st1 = advance(s, st);
        if measure(s, st1) < measure(s, st) {
            let (args, st2) = if st1.tok == KindModel::Plain(TokenKind::RParen) {
                (Seq::empty(), st1)
            } else {
                args_loop(s, st1, Seq::empty())
            };
            let st3 = expect(advance(s, st2), st2.tok, TokenKind::RParen, "expected a closing parenthesis"@, st2.span);
            let call = ExprM {
                kind: ExprKindM::Call(Box::new(callee), args),
                span: Span { lo: callee.span.lo, hi: st2.span.hi },
            };
            if measure(s, st3) < measure(s, st) {
                postfix_loop(s, st3, call)
            } else {
                (call, st3)
            }
        } else {
            (callee, st1)
        }
    }
}

/// Expressions separated by commas, read from state `st` after `acc`: all
/// of them, and the state after the last.
pub open spec fn args_loop(s: Seq<char>, st: PState, acc: Seq<ExprM>) -> (Seq<ExprM>, PState)
    decreases measure(s, st), 8nat,
{
    let (e, st1) = expr_spec(s, st);
    if st1.tok == KindModel::Plain(TokenKind::Comma) && measure(s, advance(s, st1)) < measure(s, st) {
        args_loop(s, advance(s, st1), acc.push(e))
    } else {
        (acc.push(e), st1)
    }
}

/// An atom followed by argument lists, read from state `st`, and the state
/// after it.
pub open spec fn postfix_spec(s: Seq<char>, st: PState) -> (ExprM, PState)
    decreases measure(s, st), 4nat,
{
    let (a, st1) = atom_spec(s, st);
    if measure(s, st1) <= measure(s, st) {
        postfix_loop(s, st1, a)
    } else {
        (a, st1)
    }
}

/// A place read from state `st`: a name, or `*` and a postfix expression;
/// the place, its span, and the state after it.
pub open spec fn lvalue_spec(s: Seq<char>, st: PState) -> (LValueM, Span, PState)
    decreases measure(s, st), 5nat,
{
    let st1 = advance(s, st);
    match st.tok {
        KindModel::Ident(i) => (LValueM::Var(i), st.span, st1),
        KindModel::Plain(TokenKind::Star) => if measure(s, st1) < measure(s, st) {
            let (e, st2) = postfix_spec(s, st1);
            (LValueM::Deref(Box::new(e)), Span { lo: st.span.lo, hi: e.span.hi }, st2)
        } else {
            (LValueM::Error, st.span, st1)
        },
        KindModel::Plain(TokenKind::Error) => (LValueM::Error, st.span, st1),
        _ => (LValueM::Error, st.span, report(st1, "expected an l-value"@, st.span)),
    }
}

/// Prefix operators and a postfix expression, or `&` and a place, read from
/// state `st`, and the state after it.
pub open spec fn prefix_spec(s: Seq<char>, st: PState) -> (ExprM, PState)
    decreases measure(s, st), 5nat,
{
    let st1 = advance(s, st);
    match tok_unary_op(st.tok) {
        Some(op) => if measure(s, st1) < measure(s, st) {
            let (e, st2) = prefix_spec(s, st1);
            (ExprM { kind: ExprKindM::Unary(op, Box::new(e)), span: Span { lo: st.span.lo, hi: e.span.hi } }, st2)
        } else {
            (error_expr(st.span), st1)
        },
        None => if st.tok == KindModel::Plain(TokenKind::Amp) {
            if measure(s, st1) < measure(s, st) {
                let (l, lspan, st2) = lvalue_spec(s, st1);
                (ExprM { kind: ExprKindM::Ref(Box::new(l), lspan), span: Span { lo: st.span.lo, hi: lspan.hi } }, st2)
            } else {
                (error_expr(st.span), st1)
            }
        } else {
            postfix_spec(s, st)
        },
    }
}

/// Binary operations of precedence at least `min` after `left`, read from
/// state `st` and grouped to the left, and the state after them.
pub open spec fn binary_loop(s: Seq<char>, st: PState, left: ExprM, min: int) -> (ExprM, PState)
    decreases measure(s, st), 4nat,
{
    match tok_binary_op(st.tok) {
        Some((op, prec)) => if prec < min {
            (left, st)
        } else {
            let st1 = advance(s, st);
            if measure(s, st1) < measure(s, st) {
                let (right, st2) = binary_spec(s, st1, prec + 1);
                let e = ExprM {
                    kind: ExprKindM::Binary(Box::new(left), op, Box::new(right)),
                    span: Span { lo: left.span.lo, hi: right.span.hi },
                };
                if measure(s, st2) < measure(s, st) {
                    binary_loop(s, st2, e, min)
                } else {
                    (e, st2)
                }
            } else {
                (left, st1)
            }
        },
        None => (left, st),
    }
}

/// Binary operations of precedence at least `min`, read from state `st`,
/// and the state after them.
pub open spec fn binary_spec(s: Seq<char>, st: PState, min: int) -> (ExprM, PState)
    decreases measure(s, st), 6nat,
{
    let (left, st1) = prefix_spec(s, st);
    if measure(s, st1) <= measure(s, st) {
        binary_loop(s, st1, left, min)
    } else {
        (left, st1)
    }
}

/// An expression read from state `st`: a binary expression, or an
/// assignment to a place, which is an error where the left side is no
/// place; the state after it.
pub open spec fn expr_spec(s: Seq<char>, st: PState) -> (ExprM, PState)
    decreases measure(s, st), 7nat,
{
    let (left, st1) = binary_spec(s, st, 0);
    if st1.tok != KindModel::Plain(TokenKind::Eq) {
        (left, st1)
    } else {
        let st2 = advance(s, st1);
        let st2x = match left.kind {
            ExprKindM::LValue(_) => st2,
            _ => report(st2, "expected an l-value"@, left.span),
        };
        if measure(s, st2x) < measure(s, st) {
            let (rhs, st3) = expr_spec(s, st2x);
            let e = match left.kind {
                ExprKindM::LValue(lv) => ExprM {
                    kind: ExprKindM::Assign(lv, left.span, Box::new(rhs)),
                    span: Span { lo: left.span.lo, hi: rhs.span.hi },
                },
                _ => error_expr(rhs.span),
            };
            (e, st3)
        } else {
            (left, st2x)
        }
    }
}

/// The mathematical form of a statement: its kind and span.
pub struct StmtM {
    pub kind: StmtKindM,
    pub span: Span,
}

/// The mathematical form of a statement's kind.
pub enum StmtKindM {
    Let(Seq<char>, Span, Option<TyModel>, Option<ExprM>),
    Block(Seq<StmtM>),
    If(ExprM, Box<StmtM>, Option<Box<StmtM>>),
    While(ExprM, Box<StmtM>),
    Expr(ExprM),
    Asm(Seq<AsmItemM>),
    Return(Option<ExprM>),
    Error,
}

/// The mathematical form of an item of inline assembly: its kind and span.
pub struct AsmItemM {
    pub kind: AsmKindM,
    pub span: Span,
}

/// The mathematical form of an inline assembly item's kind: a register
/// with its span and what goes in or out, or a mnemonic with its span and
/// the operands with theirs.
pub enum AsmKindM {
    In(Register, Span, ExprM),
    Out(Register, Span, LValueM),
    Instr(Seq<char>, Span, Seq<(AsmOperand, Span)>),
    Error,
}

/// An erroneous statement at `span`.
pub open spec fn error_stmt(span: Span) -> StmtM {
    StmtM { kind: StmtKindM::Error, span }
}

/// The mathematical form of an optional type.
pub open spec fn opt_ty_view(t: Option<Ty>) -> Option<TyModel> {
    match t {
        Some(x) => Some(ty_model(x)),
        None => None,
    }
}

/// The mathematical form of an optional expression.
pub open spec fn opt_expr_view(e: Option<Expr>) -> Option<ExprM> {
    match e {
        Some(x) => Some(expr_view(x)),
        None => None,
    }
}

/// Operands with their spans.
pub open spec fn operands_view(v: Seq<Spanned<AsmOperand>>) -> Seq<(AsmOperand, Span)> {
    v.map_values(|o: Spanned<AsmOperand>| (o.inner, o.span))
}

/// The mathematical form of an item of inline assembly.
pub open spec fn asm_item_view(i: Spanned<AsmItem>) -> AsmItemM {
    let kind = match i.inner {
        AsmItem::In { reg, expr } => AsmKindM::In(reg.inner, reg.span, expr_view(expr)),
        AsmItem::Out { reg, lval } => AsmKindM::Out(reg.inner, reg.span, lval_view(lval)),
        AsmItem::Instr { mnemonic, args } => AsmKindM::Instr(mnemonic.inner@, mnemonic.span, operands_view(args@)),
        AsmItem::Error => AsmKindM::Error,
    };
    AsmItemM { kind, span: i.span }
}

/// The mathematical forms of items of inline assembly.
pub open spec fn asm_items_view(v: Seq<Spanned<AsmItem>>) -> Seq<AsmItemM> {
    v.map_values(|i: Spanned<AsmItem>| asm_item_view(i))
}

/// The mathematical form of a statement.
pub open spec fn stmt_view(st: Stmt) -> StmtM
    decreases st, 1nat,
{
    let kind = match st.inner {
        StmtKind::Let { name, ty, val } => StmtKindM::Let(name.inner@, name.span, opt_ty_view(ty), opt_expr_view(val)),
        StmtKind::Block(v) => StmtKindM::Block(stmts_view(v)),
        StmtKind::If { cond, then_branch, else_branch } => StmtKindM::If(
            expr_view(cond),
            Box::new(stmt_view(*then_branch)),
            match else_branch {
                Some(b) => Some(Box::new(stmt_view(*b))),
                None => None,
            },
        ),
        StmtKind::While { cond, body } => StmtKindM::While(expr_view(cond), Box::new(stmt_view(*body))),
        StmtKind::Expr(e) => StmtKindM::Expr(expr_view(e)),
        StmtKind::Asm(items) => StmtKindM::Asm(asm_items_view(items@)),
        StmtKind::Return(e) => StmtKindM::Return(opt_expr_view(e)),
        StmtKind::Error => StmtKindM::Error,
    };
    StmtM { kind, span: st.span }
}

/// The mathematical forms of a list of statements.
pub open spec fn stmts_view(v: Vec<Stmt>) -> Seq<StmtM>
    decreases v, 0nat,
{
    Seq::new(v@.len(), |i: int| if 0 <= i < v@.len() { stmt_view(v@[i]) } else { error_stmt(Span { lo: 0, hi: 0 }) })
}

/// A `let` statement read from state `st`: a name, an optional `: type`, an
/// optional `= expression` and a semicolon; an error where the name is no
/// identifier; the state after it.
pub open spec fn let_spec(s: Seq<char>, st: PState) -> (StmtM, PState) {
    let st1 = expect_word(advance(s, st), st.tok, "let"@, "expected a let keyword"@, st.span);
    let st2 = advance(s, st1);
    let st2b = if st1.tok is Ident || st1.tok == KindModel::Plain(TokenKind::Error) {
        st2
    } else {
        report(st2, "expected an identifier"@, st1.span)
    };
    let (ty, st3) = if st2b.tok == KindModel::Plain(TokenKind::Colon) {
        let (t, st3) = ty_spec(s, advance(s, st2b));
        (Some(t), st3)
    } else {
        (None, st2b)
    };
    let (val, st4) = if st3.tok == KindModel::Plain(TokenKind::Eq) {
        let (e, st4) = expr_spec(s, advance(s, st3));
        (Some(e), st4)
    } else {
        (None, st3)
    };
    let st5 = expect(advance(s, st4), st4.tok, TokenKind::Semicolon, "expected a semicolon"@, st4.span);
    let span = Span { lo: st.span.lo, hi: st4.span.hi };
    match st1.tok {
        KindModel::Ident(i) => (StmtM { kind: StmtKindM::Let(i, st1.span, ty, val), span }, st5),
        _ => (error_stmt(span), st5),
    }
}

/// An expression followed by a semicolon, read from state `st`, and the
/// state after it; without the semicolon, an error.
pub open spec fn expr_stmt_spec(s: Seq<char>, st: PState) -> (StmtM, PState) {
    let (e, st1) = expr_spec(s, st);
    let st2 = advance(s, st1);
    match st1.tok {
        KindModel::Plain(TokenKind::Semicolon) => (StmtM { kind: StmtKindM::Expr(e), span: Span { lo: e.span.lo, hi: st1.span.hi } }, st2),
        KindModel::Plain(TokenKind::Error) => (error_stmt(st1.span), st2),
        _ => (error_stmt(st1.span), report(st2, "expected a semicolon"@, st1.span)),
    }
}

/// An operand of an instruction read from state `st`: a register, or an
/// immediate (zero for an error token); the state after it.
pub open spec fn asm_operand_spec(s: Seq<char>, st: PState) -> ((AsmOperand, Span), PState) {
    let st1 = advance(s, st);
    let bad = ((AsmOperand::Error, st.span), report(st1, "expected a register or an immediate"@, st.span));
    match st.tok {
        KindModel::Ident(n) => match register_named(n) {
            Some(r) => ((AsmOperand::Reg(r), st.span), st1),
            None => bad,
        },
        KindModel::IntLit(v) => ((AsmOperand::Imm(v), st.span), st1),
        KindModel::Plain(TokenKind::Error) => ((AsmOperand::Imm(0), st.span), st1),
        _ => bad,
    }
}

/// The operands of an instruction read from state `st` after `ops`, up to a
/// comma, a closing brace or the end: all of them, where the last ends (else
/// `last`), and the state after them.
pub open spec fn operands_loop(s: Seq<char>, st: PState, ops: Seq<(AsmOperand, Span)>, last: usize) -> (Seq<(AsmOperand, Span)>, usize, PState)
    decreases measure(s, st),
{
    if st.tok == KindModel::Plain(TokenKind::Comma) || st.tok == KindModel::Plain(TokenKind::RBrace)
        || st.tok == KindModel::Plain(TokenKind::Eof) {
        (ops, last, st)
    } else {
        let (o, st1) = asm_operand_spec(s, st);
        if measure(s, st1) < measure(s, st) {
            operands_loop(s, st1, ops.push(o), o.1.hi)
        } else {
            (ops.push(o), o.1.hi, st1)
        }
    }
}

/// What follows `reg =` at state `st`, the register's token at `span`:
/// `in(expression)` or `out(place)`; another word is an error and its
/// parentheses hold an expression; the state after the closing parenthesis.
pub open spec fn asm_binding_spec(s: Seq<char>, st: PState, reg: Register, span: Span) -> (AsmItemM, PState) {
    let st2 = advance(s, st);
    let st3 = advance(s, st2);
    let st3b = if st2.tok is Ident || st2.tok == KindModel::Plain(TokenKind::Error) {
        st3
    } else {
        report(st3, "expected `in` or `out`"@, st2.span)
    };
    let st4 = expect(advance(s, st3b), st3b.tok, TokenKind::LParen, "expected an opening parenthesis"@, st3b.span);
    let (kind, st5) = if st2.tok == KindModel::Ident("in"@) {
        let (e, st5) = expr_spec(s, st4);
        (AsmKindM::In(reg, span, e), st5)
    } else if st2.tok == KindModel::Ident("out"@) {
        let (l, lspan, st5) = lvalue_spec(s, st4);
        (AsmKindM::Out(reg, span, l), st5)
    } else {
        let st4b = if st2.tok is Ident { report(st4, "expected `in` or `out`"@, st2.span) } else { st4 };
        (AsmKindM::Error, expr_spec(s, st4b).1)
    };
    let st6 = expect(advance(s, st5), st5.tok, TokenKind::RParen, "expected a closing parenthesis"@, st5.span);
    (AsmItemM { kind, span: Span { lo: span.lo, hi: st5.span.hi } }, st6)
}

/// An item of inline assembly read from state `st`: a register bound with
/// `=`, or a mnemonic and its operands; a token that is no name is an empty
/// instruction and an error; the state after it.
pub open spec fn asm_item_spec(s: Seq<char>, st: PState) -> (AsmItemM, PState) {
    let st1 = advance(s, st);
    match st.tok {
        KindModel::Ident(name) => if register_named(name) is Some && st1.tok == KindModel::Plain(TokenKind::Eq) {
            asm_binding_spec(s, st1, register_named(name)->0, st.span)
        } else {
            let (ops, last, st2) = operands_loop(s, st1, Seq::empty(), st.span.hi);
            (AsmItemM { kind: AsmKindM::Instr(name, st.span, ops), span: Span { lo: st.span.lo, hi: last } }, st2)
        },
        _ => (
            AsmItemM { kind: AsmKindM::Instr(Seq::empty(), st.span, Seq::empty()), span: st.span },
            if st.tok == KindModel::Plain(TokenKind::Error) {
                st1
            } else {
                report(st1, "expected a register name or an instruction mnemonic"@, st.span)
            },
        ),
    }
}

/// Items of inline assembly separated by commas, read from state `st` after
/// `acc` up to a closing brace or an item not followed by a comma: all of
/// them, and the state after the last.
pub open spec fn asm_items_loop(s: Seq<char>, st: PState, acc: Seq<AsmItemM>) -> (Seq<AsmItemM>, PState)
    decreases measure(s, st),
{
    if st.tok == KindModel::Plain(TokenKind::RBrace) {
        (acc, st)
    } else {
        let (it, st1) = asm_item_spec(s, st);
        if st1.tok == KindModel::Plain(TokenKind::Comma) && measure(s, advance(s, st1)) < measure(s, st) {
            asm_items_loop(s, advance(s, st1), acc.push(it))
        } else {
            (acc.push(it), st1)
        }
    }
}

/// An inline assembly statement read from state `st`: `asm`, and items in
/// braces; the state after it.
pub open spec fn asm_spec(s: Seq<char>, st: PState) -> (StmtM, PState) {
    let st1 = expect_word(advance(s, st), st.tok, "asm"@, "expected an asm keyword"@, st.span);
    let st2 = expect(advance(s, st1), st1.tok, TokenKind::LBrace, "expected an opening brace"@, st1.span);
    let (items, st3) = asm_items_loop(s, st2, Seq::empty());
    let st4 = expect(advance(s, st3), st3.tok, TokenKind::RBrace, "expected a closing brace"@, st3.span);
    (StmtM { kind: StmtKindM::Asm(items), span: Span { lo: st.span.lo, hi: st3.span.hi } }, st4)
}

/// A `return` statement read from state `st`, with an optional value and a
/// semicolon; without the semicolon after a value, an error; the state
/// after it.
pub open spec fn return_spec(s: Seq<char>, st: PState) -> (StmtM, PState) {
    let st1 = expect_word(advance(s, st), st.tok, "return"@, "expected a return keyword"@, st.span);
    if st1.tok == KindModel::Plain(TokenKind::Semicolon) {
        (StmtM { kind: StmtKindM::Return(None), span: Span { lo: st.span.lo, hi: st1.span.hi } }, advance(s, st1))
    } else {
        let (e, st2) = expr_spec(s, st1);
        let st3 = advance(s, st2);
        match st2.tok {
            KindModel::Plain(TokenKind::Semicolon) => (StmtM { kind: StmtKindM::Return(Some(e)), span: Span { lo: e.span.lo, hi: st2.span.hi } }, st3),
            KindModel::Plain(TokenKind::Error) => (error_stmt(st2.span), st3),
            _ => (error_stmt(st2.span), report(st3, "expected a semicolon"@, st2.span)),
        }
    }
}

/// Statements read from state `st` after `acc`, up to a closing brace or the
/// end: all of them, and the state after the last.
pub open spec fn stmts_loop(s: Seq<char>, st: PState, acc: Seq<StmtM>) -> (Seq<StmtM>, PState)
    decreases measure(s, st), 10nat,
{
    if st.tok == KindModel::Plain(TokenKind::RBrace) || st.tok == KindModel::Plain(TokenKind::Eof) {
        (acc, st)
    } else {
        let (x, st1) = stmt_spec(s, st);
        if measure(s, st1) < measure(s, st) {
            stmts_loop(s, st1, acc.push(x))
        } else {
            (acc.push(x), st1)
        }
    }
}

/// A block of statements in braces read from state `st`, and the state
/// after it.
pub open spec fn block_spec(s: Seq<char>, st: PState) -> (StmtM, PState)
    decreases measure(s, st), 8nat,
{
    let st1 = expect(advance(s, st), st.tok, TokenKind::LBrace, "expected an opening brace"@, st.span);
    if measure(s, st1) < measure(s, st) {
        let (stmts, st2) = stmts_loop(s, st1, Seq::empty());
        let st3 = expect(advance(s, st2), st2.tok, TokenKind::RBrace, "expected a closing brace"@, st2.span);
        (StmtM { kind: StmtKindM::Block(stmts), span: Span { lo: st.span.lo, hi: st2.span.hi } }, st3)
    } else {
        (error_stmt(st.span), st1)
    }
}

/// An `if` statement read from state `st`: a condition, a statement, and
/// after `else` another; the state after it.
pub open spec fn if_spec(s: Seq<char>, st: PState) -> (StmtM, PState)
    decreases measure(s, st), 8nat,
{
    let st1 = expect_word(advance(s, st), st.tok, "if"@, "expected an if keyword"@, st.span);
    let (cond, st2) = expr_spec(s, st1);
    if measure(s, st2) < measure(s, st) {
        let (then_b, st3) = stmt_spec(s, st2);
        if st3.tok == KindModel::Ident("else"@) {
            let st4 = advance(s, st3);
            if measure(s, st4) < measure(s, st) {
                let (else_b, st5) = stmt_spec(s, st4);
                (StmtM {
                    kind: StmtKindM::If(cond, Box::new(then_b), Some(Box::new(else_b))),
                    span: Span { lo: st.span.lo, hi: else_b.span.hi },
                }, st5)
            } else {
                (error_stmt(st.span), st4)
            }
        } else {
            (StmtM { kind: StmtKindM::If(cond, Box::new(then_b), None), span: Span { lo: st.span.lo, hi: then_b.span.hi } }, st3)
        }
    } else {
        (error_stmt(st.span), st2)
    }
}

/// A `while` loop read from state `st`: a condition and a statement; the
/// state after it.
pub open spec fn while_spec(s: Seq<char>, st: PState) -> (StmtM, PState)
    decreases measure(s, st), 8nat,
{
    let st1 = expect_word(advance(s, st), st.tok, "while"@, "expected a while keyword"@, st.span);
    let (cond, st2) = expr_spec(s, st1);
    if measure(s, st2) < measure(s, st) {
        let (body, st3) = stmt_spec(s, st2);
        (StmtM { kind: StmtKindM::While(cond, Box::new(body)), span: Span { lo: st.span.lo, hi: body.span.hi } }, st3)
    } else {
        (error_stmt(st.span), st2)
    }
}

/// A statement read from state `st`, chosen by its first token, and the
/// state after it.
pub open spec fn stmt_spec(s: Seq<char>, st: PState) -> (StmtM, PState)
    decreases measure(s, st), 9nat,
{
    if st.tok == KindModel::Ident("let"@) {
        let_spec(s, st)
    } else if st.tok == KindModel::Plain(TokenKind::LBrace) {
        block_spec(s, st)
    } else if st.tok == KindModel::Ident("if"@) {
        if_spec(s, st)
    } else if st.tok == KindModel::Ident("while"@) {
        while_spec(s, st)
    } else if st.tok == KindModel::Ident("asm"@) {
        asm_spec(s, st)
    } else if st.tok == KindModel::Ident("return"@) {
        return_spec(s, st)
    } else {
        expr_stmt_spec(s, st)
    }
}

} // verus!
