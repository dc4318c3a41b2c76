//! The operators of the Bob language and the types they produce.
use vstd::prelude::*;
use super::ty::{Ty, TyModel, same_ty, ty_model};

verus! {

/// A binary operator.
#[derive(Debug, Clone, Copy, PartialEq, Eq, Structural)]
pub enum BinaryOp {
    Add,
    Sub,
    Mul,
    Div,
    Mod,
    LogAnd,
    LogOr,
    BitAnd,
    BitOr,
    BitXor,
    Eq,
    Ne,
    Lt,
    Le,
    Gt,
    Ge,
}

/// The type of `lhs op rhs`: nothing for a unit operand; an integer for an
/// arithmetic, logical, bitwise or ordering operator on two integers; an
/// integer for `==` and `!=` on two operands of the same type.
pub open spec fn binary_res_ty(op: BinaryOp, lhs: TyModel, rhs: TyModel) -> Option<TyModel> {
    if lhs is Unit || rhs is Unit {
        None
    } else if op is Eq || op is Ne {
        if lhs == rhs { Some(TyModel::Int) } else { None }
    } else if lhs is Int && rhs is Int {
        Some(TyModel::Int)
    } else {
        None
    }
}

/// The type of `op operand`: an integer for an integer operand, else nothing.
pub open spec fn unary_res_ty(ty: TyModel) -> Option<TyModel> {
    if ty is Int { Some(TyModel::Int) } else { None }
}

impl BinaryOp {
    /// The type that this operator produces from operands of these types, if any.
    pub fn res_ty(self, lhs: &Ty, rhs: &Ty) -> (r: Option<Ty>)
        ensures
            binary_res_ty(self, ty_model(*lhs), ty_model(*rhs)) == match r {
                Some(t) => Some(ty_model(t)),
                None => None::<TyModel>,
            },
    {
        if matches!(lhs, Ty::Unit) || matches!(rhs, Ty::Unit) {
            return None;
        }
        match self {
            BinaryOp::Eq | BinaryOp::Ne => if same_ty(lhs, rhs) { Some(Ty::Int) } else { None },
            _ => if matches!(lhs, Ty::Int) && matches!(rhs, Ty::Int) { Some(Ty::Int) } else { None },
        }
    }
}

/// A unary operator.
#[derive(Debug, Clone, Copy, PartialEq, Eq, Structural)]
pub enum UnaryOp {
    BitNot,
    LogNot,
    Neg,
}

impl UnaryOp {
    /// The type that this operator produces from an operand of this type, if any.
    pub fn res_ty(self, ty: &Ty) -> (r: Option<Ty>)
        ensures
            unary_res_ty(ty_model(*ty)) == match r {
                Some(t) => Some(ty_model(t)),
                None => None::<TyModel>,
            },
    {
        match ty {
            Ty::Int => Some(Ty::Int),
            _ => None,
        }
    }
}


/// How a binary operator is written.
pub open spec fn binary_op_text(op: BinaryOp) -> Seq<char> {
    match op {
        BinaryOp::Add => "+"@,
        BinaryOp::Sub => "-"@,
        BinaryOp::Mul => "*"@,
        BinaryOp::Div => "/"@,
        BinaryOp::Mod => "%"@,
        BinaryOp::LogAnd => "&&"@,
        BinaryOp::LogOr => "||"@,
        BinaryOp::BitAnd => "&"@,
        BinaryOp::BitOr => "|"@,
        BinaryOp::BitXor => "^"@,
        BinaryOp::Eq => "=="@,
        BinaryOp::Ne => "!="@,
        BinaryOp::Lt => "<"@,
        BinaryOp::Le => "<="@,
        BinaryOp::Gt => ">"@,
        BinaryOp::Ge => ">="@,
    }
}

/// How a unary operator is written.
pub open spec fn unary_op_text(op: UnaryOp) -> Seq<char> {
    match op {
        UnaryOp::BitNot => "~"@,
        UnaryOp::LogNot => "!"@,
        UnaryOp::Neg => "-"@,
    }
}

impl BinaryOp {
    /// How the operator is written.
    pub fn to_text(&self) -> (s: &'static str)
        ensures
            s@ == binary_op_text(*self),
    {
        match self {
            BinaryOp::Add => "+",
            BinaryOp::Sub => "-",
            BinaryOp::Mul => "*",
            BinaryOp::Div => "/",
            BinaryOp::Mod => "%",
            BinaryOp::LogAnd => "&&",
            BinaryOp::LogOr => "||",
            BinaryOp::BitAnd => "&",
            BinaryOp::BitOr => "|",
            BinaryOp::BitXor => "^",
            BinaryOp::Eq => "==",
            BinaryOp::Ne => "!=",
            BinaryOp::Lt => "<",
            BinaryOp::Le => "<=",
            BinaryOp::Gt => ">",
            BinaryOp::Ge => ">=",
        }
    }
}

impl UnaryOp {
    /// How the operator is written.
    pub fn to_text(&self) -> (s: &'static str)
        ensures
            s@ == unary_op_text(*self),
    {
        match self {
            UnaryOp::BitNot => "~",
            UnaryOp::LogNot => "!",
            UnaryOp::Neg => "-",
        }
    }
}

} // verus!
