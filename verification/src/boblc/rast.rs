//! The resolved tree: names replaced by ids, expressions typed.
use vstd::prelude::*;
use super::op::{BinaryOp, UnaryOp};
use super::ty::Ty;

verus! {

/// A variable, numbered within its function.
#[derive(Debug, Clone, Copy, PartialEq, Eq, Hash, Structural)]
pub struct VarId(pub u32);

/// A function, numbered within the program.
#[derive(Debug, Clone, Copy, PartialEq, Eq, Hash, Structural)]
pub struct FuncId(pub u32);

/// A module, numbered within the program.
#[derive(Debug, Clone, Copy, PartialEq, Eq, Hash, Structural)]
pub struct ModuleId(pub u32);

/// A resolved program: its modules.
#[derive(Debug)]
pub struct RProgram {
    pub modules: Vec<RModule>,
}

/// A resolved module: its functions.
#[derive(Debug)]
pub struct RModule {
    pub id: ModuleId,
    pub functions: Vec<RFunction>,
}

/// A resolved function: its parameters, locals and body.
#[derive(Debug)]
pub struct RFunction {
    pub id: FuncId,
    pub module: ModuleId,
    pub name: String,
    pub params: Vec<(VarId, Ty)>,
    pub ret: Ty,
    pub locals: Vec<Ty>,
    pub body: RStmt,
}

/// A resolved statement.
#[derive(Debug)]
pub enum RStmt {
    Let { var: VarId, val: Option<RExpr> },
    Block(Vec<RStmt>),
    If { cond: RExpr, then_branch: Box<RStmt>, else_branch: Option<Box<RStmt>> },
    While { cond: RExpr, body: Box<RStmt> },
    Expr(RExpr),
    Asm(Vec<RAsmItem>),
    Return(Option<RExpr>),
    Error,
}

/// A resolved expression and its type.
#[derive(Debug)]
pub struct RExpr {
    pub kind: RExprKind,
    pub ty: Ty,
}

/// The kinds of resolved expressions.
#[derive(Debug)]
pub enum RExprKind {
    IntLit(u16),
    CharLit(char),
    StrLit(String),
    LValue(RLValue),
    Function(FuncId),
    Ref(RLValue),
    Binary { left: Box<RExpr>, op: BinaryOp, right: Box<RExpr> },
    Unary { op: UnaryOp, expr: Box<RExpr> },
    Assign { target: RLValue, val: Box<RExpr> },
    Call { callee: Box<RExpr>, args: Vec<RExpr> },
    Error,
}

/// A resolved place.
#[derive(Debug)]
pub enum RLValue {
    Var(VarId),
    Deref(Box<RExpr>),
    Error,
}

/// A machine register in resolved inline assembly.
#[derive(Debug, Clone, Copy, PartialEq, Eq, Structural)]
pub enum RRegister {
    R0,
    R1,
    R2,
    R3,
    R4,
    R5,
    R6,
    R7,
}

/// A resolved item of inline assembly.
#[derive(Debug)]
pub enum RAsmItem {
    In { reg: RRegister, expr: RExpr },
    Out { reg: RRegister, lval: RLValue },
    Instr { mnemonic: String, args: Vec<RAsmOperand> },
    Error,
}

/// A resolved operand of an inline assembly instruction.
#[derive(Debug)]
pub enum RAsmOperand {
    Reg(RRegister),
    Imm(u16),
    Error,
}

} // verus!
