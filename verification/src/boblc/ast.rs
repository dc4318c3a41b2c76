//! The syntax tree of a Bob source file, as the parser builds it.
use vstd::prelude::*;
use super::op::{BinaryOp, UnaryOp};
use super::source::Spanned;
use super::ty::Ty;
use crate::text::str_eq;

verus! {

/// An item with its span.
pub type Item = Spanned<ItemKind>;

/// A statement with its span.
pub type Stmt = Spanned<StmtKind>;

/// An expression with its span.
pub type Expr = Spanned<ExprKind>;

/// A parsed source file: its items in order.
#[derive(Debug)]
pub struct Program {
    pub items: Vec<Item>,
}

/// A top-level item: an import, an external or a defined function.
#[derive(Debug)]
pub enum ItemKind {
    Import(Spanned<String>),
    FunctionExternal { name: Spanned<String>, params: Vec<Ty>, ret: Ty },
    FunctionDefined { name: Spanned<String>, params: Vec<(Spanned<String>, Ty)>, ret: Ty, body: Stmt },
    Error,
}

/// A statement.
#[derive(Debug)]
pub enum StmtKind {
    Let { name: Spanned<String>, ty: Option<Ty>, val: Option<Expr> },
    Block(Vec<Stmt>),
    If { cond: Expr, then_branch: Box<Stmt>, else_branch: Option<Box<Stmt>> },
    While { cond: Expr, body: Box<Stmt> },
    Expr(Expr),
    Asm(Vec<Spanned<AsmItem>>),
    Return(Option<Expr>),
    Error,
}

/// An expression.
#[derive(Debug)]
pub enum ExprKind {
    IntLit(u16),
    CharLit(char),
    StrLit(String),
    LValue(Box<LValue>),
    Ref(Spanned<Box<LValue>>),
    Path(Vec<Spanned<String>>),
    Binary { left: Box<Expr>, op: BinaryOp, right: Box<Expr> },
    Unary { op: UnaryOp, expr: Box<Expr> },
    Assign { lval: Spanned<Box<LValue>>, expr: Box<Expr> },
    Call { callee: Box<Expr>, params: Vec<Expr> },
    Error,
}

/// A place that can be read or written.
#[derive(Debug)]
pub enum LValue {
    Var(String),
    Deref(Expr),
    Error,
}

/// A machine register named in inline assembly.
#[derive(Debug, Clone, Copy, PartialEq, Eq, Structural)]
pub enum Register {
    R0,
    R1,
    R2,
    R3,
    R4,
    R5,
    R6,
    R7,
}

/// The register that a name written in lowercase denotes: `r0` to `r7`.
pub open spec fn register_named(name: Seq<char>) -> Option<Register> {
    if name == "r0"@ {
        Some(Register::R0)
    } else if name == "r1"@ {
        Some(Register::R1)
    } else if name == "r2"@ {
        Some(Register::R2)
    } else if name == "r3"@ {
        Some(Register::R3)
    } else if name == "r4"@ {
        Some(Register::R4)
    } else if name == "r5"@ {
        Some(Register::R5)
    } else if name == "r6"@ {
        Some(Register::R6)
    } else if name == "r7"@ {
        Some(Register::R7)
    } else {
        None
    }
}

impl Register {
    /// The register named `name`, if it names one.
    pub fn from_name(name: &str) -> (r: Option<Register>)
        ensures
            r == register_named(name@),
    {
        if str_eq(name, "r0") {
            Some(Register::R0)
        } else if str_eq(name, "r1") {
            Some(Register::R1)
        } else if str_eq(name, "r2") {
            Some(Register::R2)
        } else if str_eq(name, "r3") {
            Some(Register::R3)
        } else if str_eq(name, "r4") {
            Some(Register::R4)
        } else if str_eq(name, "r5") {
            Some(Register::R5)
        } else if str_eq(name, "r6") {
            Some(Register::R6)
        } else if str_eq(name, "r7") {
            Some(Register::R7)
        } else {
            None
        }
    }
}

/// An item of inline assembly: a value into a register, a register out to a
/// place, or an instruction.
#[derive(Debug)]
pub enum AsmItem {
    In { reg: Spanned<Register>, expr: Expr },
    Out { reg: Spanned<Register>, lval: LValue },
    Instr { mnemonic: Spanned<String>, args: Vec<Spanned<AsmOperand>> },
    Error,
}

/// An operand of an inline assembly instruction.
#[derive(Debug)]
pub enum AsmOperand {
    Reg(Register),
    Imm(u16),
    Error,
}

} // verus!
