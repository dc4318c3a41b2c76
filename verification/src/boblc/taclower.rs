//! Lowering the resolved tree into three-address code.
use vstd::prelude::*;
use super::rast::{FuncId, RAsmItem, RAsmOperand, RExpr, RExprKind, RFunction, RLValue, RModule, RProgram, RRegister, RStmt, VarId};
use super::tac::{Label, TacAsmOperand, TacFunction, TacInst, TacProgram, TacRegister, Temp};
use super::ty::Ty;
use super::opt::pipeline::{lemma_optimized_fixpoint, lemma_next_small, lemma_rounds_decrease, next_bodies, optimized, round_body, round_changed, round_results, rounds_bound, small};
use super::opt::constpropagation::{lemma_propagate_weight, propagate};
use super::opt::deadtempelimination::{dce_prefix, lemma_dce_weight};
use super::opt::remaptemp::{lemma_remap_prefix_bounds, remap_prefix};
use super::opt::{constpropagation, deadtempelimination, remaptemp};

verus! {

/// The machine register of a resolved register.
pub open spec fn conv_reg_spec(r: RRegister) -> TacRegister {
    match r {
        RRegister::R0 => TacRegister::R0,
        RRegister::R1 => TacRegister::R1,
        RRegister::R2 => TacRegister::R2,
        RRegister::R3 => TacRegister::R3,
        RRegister::R4 => TacRegister::R4,
        RRegister::R5 => TacRegister::R5,
        RRegister::R6 => TacRegister::R6,
        RRegister::R7 => TacRegister::R7,
    }
}

/// The machine register of a resolved register.
fn conv_reg(r: RRegister) -> (t: TacRegister)
    ensures
        t == conv_reg_spec(r),
{
    match r {
        RRegister::R0 => TacRegister::R0,
        RRegister::R1 => TacRegister::R1,
        RRegister::R2 => TacRegister::R2,
        RRegister::R3 => TacRegister::R3,
        RRegister::R4 => TacRegister::R4,
        RRegister::R5 => TacRegister::R5,
        RRegister::R6 => TacRegister::R6,
        RRegister::R7 => TacRegister::R7,
    }
}

/// The operand of a raw instruction for a resolved one.
pub open spec fn conv_operand(a: RAsmOperand) -> TacAsmOperand {
    match a {
        RAsmOperand::Reg(r) => TacAsmOperand::Reg(conv_reg_spec(r)),
        RAsmOperand::Imm(n) => TacAsmOperand::Imm(n),
        RAsmOperand::Error => TacAsmOperand::Imm(0),
    }
}

/// Two instructions that agree: equal, or raw instructions with the same
/// mnemonic and operands.
pub open spec fn inst_matches(a: TacInst, b: TacInst) -> bool {
    match (a, b) {
        (TacInst::AsmRaw { mnemonic: m1, args: a1 }, TacInst::AsmRaw { mnemonic: m2, args: a2 }) =>
            m1 == m2 && a1@ == a2@,
        _ => a == b,
    }
}

/// Two bodies that agree instruction by instruction.
pub open spec fn insts_match(a: Seq<TacInst>, b: Seq<TacInst>) -> bool {
    a.len() == b.len() && forall|k: int| 0 <= k < a.len() ==> inst_matches(#[trigger] a[k], b[k])
}

/// A raw instruction with the given mnemonic and operands.
pub open spec fn raw_inst(mnemonic: String, args: Seq<TacAsmOperand>) -> TacInst {
    TacInst::AsmRaw { mnemonic, args: choose|v: Vec<TacAsmOperand>| v@ == args }
}

/// What lowering produced: the code, the next temporary and the next label.
pub struct Gen {
    pub code: Seq<TacInst>,
    pub next_temp: nat,
    pub next_label: nat,
}

/// The code of an expression and the temporary holding its value, with
/// temporaries and labels numbered from `nt` and `nl`.
pub open spec fn gen_expr(nt: nat, nl: nat, e: RExpr) -> (Gen, Temp)
    decreases e,
{
    let fresh = Temp(nt as u32);
    match e.kind {
        RExprKind::IntLit(i) => (Gen { code: seq![TacInst::ConstInt { dst: fresh, val: i }], next_temp: nt + 1, next_label: nl }, fresh),
        RExprKind::CharLit(c) => (Gen { code: seq![TacInst::ConstInt { dst: fresh, val: c as u16 }], next_temp: nt + 1, next_label: nl }, fresh),
        RExprKind::StrLit(s) => (Gen { code: seq![TacInst::ConstStr { dst: fresh, val: s }], next_temp: nt + 1, next_label: nl }, fresh),
        RExprKind::LValue(RLValue::Var(var)) => (Gen { code: seq![TacInst::LoadVar { dst: fresh, var }], next_temp: nt + 1, next_label: nl }, fresh),
        RExprKind::LValue(RLValue::Deref(inner)) => {
            let (g1, addr) = gen_expr(nt, nl, *inner);
            let dst = Temp(g1.next_temp as u32);
            (Gen { code: g1.code.push(TacInst::Load { dst, addr }), next_temp: g1.next_temp + 1, ..g1 }, dst)
        },
        RExprKind::Function(func) => (Gen { code: seq![TacInst::LoadFunc { dst: fresh, func }], next_temp: nt + 1, next_label: nl }, fresh),
        RExprKind::Ref(lval) => gen_addr(nt, nl, lval),
        RExprKind::Binary { left, op, right } => {
            let (g1, lhs) = gen_expr(nt, nl, *left);
            let (g2, rhs) = gen_expr(g1.next_temp, g1.next_label, *right);
            let dst = Temp(g2.next_temp as u32);
            (Gen { code: g1.code + g2.code.push(TacInst::BinOp { dst, op, lhs, rhs }), next_temp: g2.next_temp + 1, ..g2 }, dst)
        },
        RExprKind::Unary { op, expr } => {
            let (g1, src) = gen_expr(nt, nl, *expr);
            let dst = Temp(g1.next_temp as u32);
            (Gen { code: g1.code.push(TacInst::UnOp { dst, op, src }), next_temp: g1.next_temp + 1, ..g1 }, dst)
        },
        RExprKind::Assign { target, val } => {
            let (g1, v) = gen_expr(nt, nl, *val);
            (gen_store(g1, target, v), v)
        },
        RExprKind::Call { callee, args } => {
            let (g1, c) = gen_expr(nt, nl, *callee);
            let dst = Temp(g1.next_temp as u32);
            let g2 = gen_args(g1.next_temp + 1, g1.next_label, args@);
            (Gen { code: g1.code + g2.code.push(TacInst::Call { dst: Some(dst), callee: c }), ..g2 }, dst)
        },
        _ => (Gen { code: Seq::empty(), next_temp: nt, next_label: nl }, fresh),
    }
}

/// The code that stores temporary `v` into a place, after the code `g`.
pub open spec fn gen_store(g: Gen, target: RLValue, v: Temp) -> Gen
    decreases target,
{
    match target {
        RLValue::Var(var) => Gen { code: g.code.push(TacInst::StoreVar { var, src: v }), ..g },
        RLValue::Deref(e) => {
            let (g2, addr) = gen_expr(g.next_temp, g.next_label, *e);
            Gen { code: g.code + g2.code.push(TacInst::Store { addr, src: v }), ..g2 }
        },
        RLValue::Error => g,
    }
}

/// The code of a place's address and the temporary holding it.
pub open spec fn gen_addr(nt: nat, nl: nat, lval: RLValue) -> (Gen, Temp)
    decreases lval,
{
    match lval {
        RLValue::Var(var) => (Gen { code: seq![TacInst::AddrOf { dst: Temp(nt as u32), var }], next_temp: nt + 1, next_label: nl }, Temp(nt as u32)),
        RLValue::Deref(e) => gen_expr(nt, nl, *e),
        RLValue::Error => (Gen { code: Seq::empty(), next_temp: nt, next_label: nl }, Temp(nt as u32)),
    }
}

/// The code of call arguments, each computed and then passed.
pub open spec fn gen_args(nt: nat, nl: nat, args: Seq<RExpr>) -> Gen
    decreases args,
{
    if args.len() == 0 {
        Gen { code: Seq::empty(), next_temp: nt, next_label: nl }
    } else {
        let (g1, t) = gen_expr(nt, nl, args[0]);
        let g2 = gen_args(g1.next_temp, g1.next_label, args.subrange(1, args.len() as int));
        Gen { code: g1.code.push(TacInst::Param(t)) + g2.code, ..g2 }
    }
}

/// The code of a statement.
pub open spec fn gen_stmt(nt: nat, nl: nat, s: RStmt) -> Gen
    decreases s,
{
    let empty = Gen { code: Seq::empty(), next_temp: nt, next_label: nl };
    match s {
        RStmt::Let { var, val } => match val {
            Some(e) => {
                let (g1, src) = gen_expr(nt, nl, e);
                Gen { code: g1.code.push(TacInst::StoreVar { var, src }), ..g1 }
            },
            None => empty,
        },
        RStmt::Block(stmts) => gen_stmts(nt, nl, stmts@),
        RStmt::Expr(e) => gen_expr(nt, nl, e).0,
        RStmt::If { cond, then_branch, else_branch } => {
            let else_label = Label(nl as u32);
            let end_label = Label((nl + 1) as u32);
            let (g1, c) = gen_expr(nt, nl + 2, cond);
            let g2 = gen_stmt(g1.next_temp, g1.next_label, *then_branch);
            let head = g1.code.push(TacInst::JumpIfZero { cond: c, target: else_label }) + g2.code;
            match else_branch {
                Some(eb) => {
                    let g3 = gen_stmt(g2.next_temp, g2.next_label, *eb);
                    Gen {
                        code: head.push(TacInst::Jump(end_label)).push(TacInst::Label(else_label)) + g3.code.push(TacInst::Label(end_label)),
                        ..g3
                    }
                },
                None => Gen { code: head.push(TacInst::Label(else_label)), ..g2 },
            }
        },
        RStmt::While { cond, body } => {
            let cond_label = Label(nl as u32);
            let exit_label = Label((nl + 1) as u32);
            let (g1, c) = gen_expr(nt, nl + 2, cond);
            let g2 = gen_stmt(g1.next_temp, g1.next_label, *body);
            Gen {
                code: seq![TacInst::Label(cond_label)] + g1.code.push(TacInst::JumpIfZero { cond: c, target: exit_label })
                    + g2.code.push(TacInst::Jump(cond_label)).push(TacInst::Label(exit_label)),
                ..g2
            }
        },
        RStmt::Asm(items) => gen_asm(nt, nl, items@),
        RStmt::Return(val) => match val {
            Some(e) => {
                let (g1, t) = gen_expr(nt, nl, e);
                Gen { code: g1.code.push(TacInst::Return(Some(t))), ..g1 }
            },
            None => Gen { code: seq![TacInst::Return(None)], ..empty },
        },
        RStmt::Error => empty,
    }
}

/// The code of a sequence of statements.
pub open spec fn gen_stmts(nt: nat, nl: nat, stmts: Seq<RStmt>) -> Gen
    decreases stmts,
{
    if stmts.len() == 0 {
        Gen { code: Seq::empty(), next_temp: nt, next_label: nl }
    } else {
        let g1 = gen_stmt(nt, nl, stmts[0]);
        let g2 = gen_stmts(g1.next_temp, g1.next_label, stmts.subrange(1, stmts.len() as int));
        Gen { code: g1.code + g2.code, ..g2 }
    }
}

/// The code of the items of an inline assembly statement.
pub open spec fn gen_asm(nt: nat, nl: nat, items: Seq<RAsmItem>) -> Gen
    decreases items,
{
    if items.len() == 0 {
        Gen { code: Seq::empty(), next_temp: nt, next_label: nl }
    } else {
        let g1 = match items[0] {
            RAsmItem::In { reg, expr } => {
                let (g, src) = gen_expr(nt, nl, expr);
                Gen { code: g.code.push(TacInst::AsmIn { dst: conv_reg_spec(reg), src }), ..g }
            },
            RAsmItem::Out { reg, lval } => {
                let dst = Temp(nt as u32);
                let g = Gen { code: seq![TacInst::AsmOut { dst, src: conv_reg_spec(reg) }], next_temp: nt + 1, next_label: nl };
                gen_store(g, lval, dst)
            },
            RAsmItem::Instr { mnemonic, args } => Gen {
                code: seq![raw_inst(mnemonic, args@.map_values(|a: RAsmOperand| conv_operand(a)))],
                next_temp: nt,
                next_label: nl,
            },
            RAsmItem::Error => Gen { code: Seq::empty(), next_temp: nt, next_label: nl },
        };
        let g2 = gen_asm(g1.next_temp, g1.next_label, items.subrange(1, items.len() as int));
        Gen { code: g1.code + g2.code, ..g2 }
    }
}


/// Whether an expression holds no error node.
pub open spec fn expr_ok(e: RExpr) -> bool
    decreases e,
{
    match e.kind {
        RExprKind::LValue(l) => lval_ok(l),
        RExprKind::Ref(l) => lval_ok(l),
        RExprKind::Binary { left, right, .. } => expr_ok(*left) && expr_ok(*right),
        RExprKind::Unary { expr, .. } => expr_ok(*expr),
        RExprKind::Assign { target, val } => lval_ok(target) && expr_ok(*val),
        RExprKind::Call { callee, args } => expr_ok(*callee) && args_ok(args@),
        RExprKind::Error => false,
        _ => true,
    }
}

/// Whether a place holds no error node.
pub open spec fn lval_ok(l: RLValue) -> bool
    decreases l,
{
    match l {
        RLValue::Var(_) => true,
        RLValue::Deref(e) => expr_ok(*e),
        RLValue::Error => false,
    }
}

/// Whether call arguments hold no error node.
pub open spec fn args_ok(args: Seq<RExpr>) -> bool
    decreases args,
{
    args.len() == 0 || (expr_ok(args[0]) && args_ok(args.subrange(1, args.len() as int)))
}

/// Whether a statement holds no error node.
pub open spec fn stmt_ok(s: RStmt) -> bool
    decreases s,
{
    match s {
        RStmt::Let { val, .. } => match val {
            Some(e) => expr_ok(e),
            None => true,
        },
        RStmt::Block(stmts) => stmts_ok(stmts@),
        RStmt::Expr(e) => expr_ok(e),
        RStmt::If { cond, then_branch, else_branch } => expr_ok(cond) && stmt_ok(*then_branch) && match else_branch {
            Some(eb) => stmt_ok(*eb),
            None => true,
        },
        RStmt::While { cond, body } => expr_ok(cond) && stmt_ok(*body),
        RStmt::Asm(items) => asm_ok(items@),
        RStmt::Return(val) => match val {
            Some(e) => expr_ok(e),
            None => true,
        },
        RStmt::Error => false,
    }
}

/// Whether statements hold no error node.
pub open spec fn stmts_ok(stmts: Seq<RStmt>) -> bool
    decreases stmts,
{
    stmts.len() == 0 || (stmt_ok(stmts[0]) && stmts_ok(stmts.subrange(1, stmts.len() as int)))
}

/// Whether the items of inline assembly hold no error node.
pub open spec fn asm_ok(items: Seq<RAsmItem>) -> bool
    decreases items,
{
    items.len() == 0 || ((match items[0] {
        RAsmItem::In { expr, .. } => expr_ok(expr),
        RAsmItem::Out { lval, .. } => lval_ok(lval),
        RAsmItem::Instr { args, .. } => forall|k: int| 0 <= k < args@.len() ==> !(args@[k] is Error),
        RAsmItem::Error => false,
    }) && asm_ok(items.subrange(1, items.len() as int)))
}

/// Lowering never takes back a temporary or a label.
proof fn lemma_gen_expr_mono(nt: nat, nl: nat, e: RExpr)
    ensures
        gen_expr(nt, nl, e).0.next_temp >= nt,
        gen_expr(nt, nl, e).0.next_label >= nl,
    decreases e,
{
    match e.kind {
        RExprKind::LValue(RLValue::Deref(inner)) => lemma_gen_expr_mono(nt, nl, *inner),
        RExprKind::Ref(lval) => lemma_gen_addr_mono(nt, nl, lval),
        RExprKind::Binary { left, right, .. } => {
            lemma_gen_expr_mono(nt, nl, *left);
            let g1 = gen_expr(nt, nl, *left).0;
            lemma_gen_expr_mono(g1.next_temp, g1.next_label, *right);
        },
        RExprKind::Unary { expr, .. } => lemma_gen_expr_mono(nt, nl, *expr),
        RExprKind::Assign { target, val } => {
            lemma_gen_expr_mono(nt, nl, *val);
            let (g1, v) = gen_expr(nt, nl, *val);
            lemma_gen_store_mono(g1, target, v);
        },
        RExprKind::Call { callee, args } => {
            lemma_gen_expr_mono(nt, nl, *callee);
            let g1 = gen_expr(nt, nl, *callee).0;
            lemma_gen_args_mono(g1.next_temp + 1, g1.next_label, args@);
        },
        _ => {},
    }
}

proof fn lemma_gen_store_mono(g: Gen, target: RLValue, v: Temp)
    ensures
        gen_store(g, target, v).next_temp >= g.next_temp,
        gen_store(g, target, v).next_label >= g.next_label,
    decreases target,
{
    if let RLValue::Deref(e) = target {
        lemma_gen_expr_mono(g.next_temp, g.next_label, *e);
    }
}

proof fn lemma_gen_addr_mono(nt: nat, nl: nat, lval: RLValue)
    ensures
        gen_addr(nt, nl, lval).0.next_temp >= nt,
        gen_addr(nt, nl, lval).0.next_label >= nl,
    decreases lval,
{
    if let RLValue::Deref(e) = lval {
        lemma_gen_expr_mono(nt, nl, *e);
    }
}

proof fn lemma_gen_args_mono(nt: nat, nl: nat, args: Seq<RExpr>)
    ensures
        gen_args(nt, nl, args).next_temp >= nt,
        gen_args(nt, nl, args).next_label >= nl,
    decreases args,
{
    if args.len() > 0 {
        lemma_gen_expr_mono(nt, nl, args[0]);
        let g1 = gen_expr(nt, nl, args[0]).0;
        lemma_gen_args_mono(g1.next_temp, g1.next_label, args.subrange(1, args.len() as int));
    }
}

proof fn lemma_gen_stmt_mono(nt: nat, nl: nat, s: RStmt)
    ensures
        gen_stmt(nt, nl, s).next_temp >= nt,
        gen_stmt(nt, nl, s).next_label >= nl,
    decreases s,
{
    match s {
        RStmt::Let { val, .. } => if let Some(e) = val { lemma_gen_expr_mono(nt, nl, e); },
        RStmt::Block(stmts) => lemma_gen_stmts_mono(nt, nl, stmts@),
        RStmt::Expr(e) => lemma_gen_expr_mono(nt, nl, e),
        RStmt::If { cond, then_branch, else_branch } => {
            lemma_gen_expr_mono(nt, nl + 2, cond);
            let g1 = gen_expr(nt, nl + 2, cond).0;
            lemma_gen_stmt_mono(g1.next_temp, g1.next_label, *then_branch);
            let g2 = gen_stmt(g1.next_temp, g1.next_label, *then_branch);
            if let Some(eb) = else_branch {
                lemma_gen_stmt_mono(g2.next_temp, g2.next_label, *eb);
            }
        },
        RStmt::While { cond, body } => {
            lemma_gen_expr_mono(nt, nl + 2, cond);
            let g1 = gen_expr(nt, nl + 2, cond).0;
            lemma_gen_stmt_mono(g1.next_temp, g1.next_label, *body);
        },
        RStmt::Asm(items) => lemma_gen_asm_mono(nt, nl, items@),
        RStmt::Return(val) => if let Some(e) = val { lemma_gen_expr_mono(nt, nl, e); },
        RStmt::Error => {},
    }
}

proof fn lemma_gen_stmts_mono(nt: nat, nl: nat, stmts: Seq<RStmt>)
    ensures
        gen_stmts(nt, nl, stmts).next_temp >= nt,
        gen_stmts(nt, nl, stmts).next_label >= nl,
    decreases stmts,
{
    if stmts.len() > 0 {
        lemma_gen_stmt_mono(nt, nl, stmts[0]);
        let g1 = gen_stmt(nt, nl, stmts[0]);
        lemma_gen_stmts_mono(g1.next_temp, g1.next_label, stmts.subrange(1, stmts.len() as int));
    }
}

proof fn lemma_gen_asm_mono(nt: nat, nl: nat, items: Seq<RAsmItem>)
    ensures
        gen_asm(nt, nl, items).next_temp >= nt,
        gen_asm(nt, nl, items).next_label >= nl,
    decreases items,
{
    if items.len() > 0 {
        match items[0] {
            RAsmItem::In { expr, .. } => lemma_gen_expr_mono(nt, nl, expr),
            RAsmItem::Out { reg, lval } => {
                let g = Gen { code: seq![TacInst::AsmOut { dst: Temp(nt as u32), src: conv_reg_spec(reg) }], next_temp: nt + 1, next_label: nl };
                lemma_gen_store_mono(g, lval, Temp(nt as u32));
            },
            _ => {},
        }
        let g1 = match items[0] {
            RAsmItem::In { reg, expr } => {
                let (g, src) = gen_expr(nt, nl, expr);
                Gen { code: g.code.push(TacInst::AsmIn { dst: conv_reg_spec(reg), src }), ..g }
            },
            RAsmItem::Out { reg, lval } => {
                let dst = Temp(nt as u32);
                let g = Gen { code: seq![TacInst::AsmOut { dst, src: conv_reg_spec(reg) }], next_temp: nt + 1, next_label: nl };
                gen_store(g, lval, dst)
            },
            RAsmItem::Instr { mnemonic, args } => Gen {
                code: seq![raw_inst(mnemonic, args@.map_values(|a: RAsmOperand| conv_operand(a)))],
                next_temp: nt,
                next_label: nl,
            },
            RAsmItem::Error => Gen { code: Seq::empty(), next_temp: nt, next_label: nl },
        };
        lemma_gen_asm_mono(g1.next_temp, g1.next_label, items.subrange(1, items.len() as int));
    }
}

/// Matching bodies stay matching when the same code follows both.
proof fn lemma_match_append(a: Seq<TacInst>, b: Seq<TacInst>, c: Seq<TacInst>, d: Seq<TacInst>)
    requires
        insts_match(a, b),
        insts_match(c, d),
    ensures
        insts_match(a + c, b + d),
{
    assert forall|k: int| 0 <= k < (a + c).len() implies inst_matches(#[trigger] (a + c)[k], (b + d)[k]) by {
        if k < a.len() {
            assert(inst_matches(a[k], b[k]));
        } else {
            assert(inst_matches(c[k - a.len()], d[k - a.len()]));
        }
    }
}

/// Every body matches itself.
proof fn lemma_match_refl(a: Seq<TacInst>)
    ensures
        insts_match(a, a),
{
    assert forall|k: int| 0 <= k < a.len() implies inst_matches(#[trigger] a[k], a[k]) by {
        match a[k] {
            TacInst::AsmRaw { .. } => {},
            _ => {},
        }
    }
}

/// Matching is transitive.
proof fn lemma_match_trans(a: Seq<TacInst>, b: Seq<TacInst>, c: Seq<TacInst>)
    requires
        insts_match(a, b),
        insts_match(b, c),
    ensures
        insts_match(a, c),
{
    assert forall|k: int| 0 <= k < a.len() implies inst_matches(#[trigger] a[k], c[k]) by {
        assert(inst_matches(a[k], b[k]));
        assert(inst_matches(b[k], c[k]));
    }
}


/// A lowerer of a resolved program into three-address code.
pub struct Lowerer {
    rprogram: RProgram,
    tacprogram: TacProgram,
    next_temp: u32,
    next_label: u32,
    current_function: Option<TacFunction>,
}

impl Lowerer {
    /// Whether a function is being lowered, with as many temporaries as
    /// the next number.
    spec fn in_function(&self) -> bool {
        &&& self.current_function is Some
        &&& self.current_function.unwrap().num_temps == self.next_temp
    }

    /// The body of the function being lowered.
    spec fn body(&self) -> Seq<TacInst> {
        self.current_function.unwrap().body@
    }

    /// Whether only the body and the counters of `self` differ from `other`.
    spec fn same_but_code(&self, other: &Self) -> bool {
        &&& self.rprogram == other.rprogram
        &&& self.tacprogram == other.tacprogram
        &&& self.current_function.unwrap().id == other.current_function.unwrap().id
        &&& self.current_function.unwrap().params == other.current_function.unwrap().params
        &&& self.current_function.unwrap().locals == other.current_function.unwrap().locals
    }

    /// A fresh temporary.
    fn new_temp(&mut self) -> (t: Temp)
        requires
            old(self).in_function(),
            old(self).next_temp < u32::MAX,
        ensures
            t == Temp(old(self).next_temp),
            final(self).next_temp == old(self).next_temp + 1,
            final(self).next_label == old(self).next_label,
            final(self).in_function(),
            final(self).body() == old(self).body(),
            final(self).same_but_code(old(self)),
    {
        let mut func = self.current_function.take().unwrap();
        let temp = Temp(self.next_temp);
        func.num_temps = func.num_temps + 1;
        self.next_temp = self.next_temp + 1;
        self.current_function = Some(func);
        temp
    }

    /// A fresh label.
    fn new_label(&mut self) -> (l: Label)
        requires
            old(self).next_label < u32::MAX,
        ensures
            l == Label(old(self).next_label),
            final(self).next_label == old(self).next_label + 1,
            final(self).next_temp == old(self).next_temp,
            final(self).current_function == old(self).current_function,
            final(self).rprogram == old(self).rprogram,
            final(self).tacprogram == old(self).tacprogram,
    {
        let label = Label(self.next_label);
        self.next_label = self.next_label + 1;
        label
    }

    /// Appends an instruction to the function being lowered.
    fn emit(&mut self, inst: TacInst)
        requires
            old(self).in_function(),
        ensures
            final(self).body() == old(self).body().push(inst),
            final(self).next_temp == old(self).next_temp,
            final(self).next_label == old(self).next_label,
            final(self).in_function(),
            final(self).same_but_code(old(self)),
    {
        let mut func = self.current_function.take().unwrap();
        func.body.push(inst);
        self.current_function = Some(func);
    }
}


/// Matching bodies stay matching when the same instruction follows both.
proof fn lemma_match_push(a: Seq<TacInst>, b: Seq<TacInst>, i: TacInst)
    requires
        insts_match(a, b),
    ensures
        insts_match(a.push(i), b.push(i)),
{
    lemma_match_refl(seq![i]);
    lemma_match_append(a, b, seq![i], seq![i]);
    assert(a + seq![i] =~= a.push(i));
    assert(b + seq![i] =~= b.push(i));
}

/// The code of a store after `g` is `g`'s code and the store's own.
proof fn lemma_gen_store_split(g: Gen, target: RLValue, v: Temp)
    ensures
        gen_store(g, target, v).code == g.code + gen_store(Gen { code: Seq::empty(), ..g }, target, v).code,
        gen_store(g, target, v).next_temp == gen_store(Gen { code: Seq::empty(), ..g }, target, v).next_temp,
        gen_store(g, target, v).next_label == gen_store(Gen { code: Seq::empty(), ..g }, target, v).next_label,
{
    match target {
        RLValue::Var(var) => {
            assert(g.code.push(TacInst::StoreVar { var, src: v }) =~= g.code + Seq::<TacInst>::empty().push(TacInst::StoreVar { var, src: v }));
        },
        RLValue::Deref(e) => {
            let (g2, addr) = gen_expr(g.next_temp, g.next_label, *e);
            assert(g.code + g2.code.push(TacInst::Store { addr, src: v }) =~= g.code + (Seq::<TacInst>::empty() + g2.code.push(TacInst::Store { addr, src: v })));
        },
        RLValue::Error => {
            assert(g.code =~= g.code + Seq::<TacInst>::empty());
        },
    }
}

impl Lowerer {
    /// Lowers an expression; the temporary that holds its value.
    fn lower_expr(&mut self, expr: RExpr) -> (t: Temp)
        requires
            old(self).in_function(),
            expr_ok(expr),
            gen_expr(old(self).next_temp as nat, old(self).next_label as nat, expr).0.next_temp <= u32::MAX,
            gen_expr(old(self).next_temp as nat, old(self).next_label as nat, expr).0.next_label <= u32::MAX,
        ensures
            t == gen_expr(old(self).next_temp as nat, old(self).next_label as nat, expr).1,
            final(self).next_temp == gen_expr(old(self).next_temp as nat, old(self).next_label as nat, expr).0.next_temp,
            final(self).next_label == gen_expr(old(self).next_temp as nat, old(self).next_label as nat, expr).0.next_label,
            insts_match(final(self).body(), old(self).body() + gen_expr(old(self).next_temp as nat, old(self).next_label as nat, expr).0.code),
            final(self).in_function(),
            final(self).same_but_code(old(self)),
        decreases expr,
    {
        let ghost e0 = expr;
        let ghost b0 = self.body();
        let ghost g = gen_expr(self.next_temp as nat, self.next_label as nat, expr).0;
        proof { lemma_gen_expr_mono(self.next_temp as nat, self.next_label as nat, expr); }
        match expr.kind {
            RExprKind::IntLit(i) => {
                let dst = self.new_temp();
                self.emit(TacInst::ConstInt { dst, val: i });
                proof { assert(self.body() =~= b0 + g.code); lemma_match_refl(self.body()); }
                dst
            }
            RExprKind::CharLit(c) => {
                let dst = self.new_temp();
                self.emit(TacInst::ConstInt { dst, val: c as u16 });
                proof { assert(self.body() =~= b0 + g.code); lemma_match_refl(self.body()); }
                dst
            }
            RExprKind::StrLit(s) => {
                let dst = self.new_temp();
                self.emit(TacInst::ConstStr { dst, val: s });
                proof { assert(self.body() =~= b0 + g.code); lemma_match_refl(self.body()); }
                dst
            }
            RExprKind::LValue(RLValue::Var(var)) => {
                let dst = self.new_temp();
                self.emit(TacInst::LoadVar { dst, var });
                proof { assert(self.body() =~= b0 + g.code); lemma_match_refl(self.body()); }
                dst
            }
            RExprKind::LValue(RLValue::Deref(inner)) => {
                proof { assert(lval_ok(RLValue::Deref(inner))); }
                let ghost g1 = gen_expr(self.next_temp as nat, self.next_label as nat, *inner).0;
                let addr = self.lower_expr(*inner);
                let ghost b1 = self.body();
                let dst = self.new_temp();
                self.emit(TacInst::Load { dst, addr });
                proof {
                    lemma_match_push(b1, b0 + g1.code, TacInst::Load { dst, addr });
                    assert((b0 + g1.code).push(TacInst::Load { dst, addr }) =~= b0 + g.code);
                }
                dst
            }
            RExprKind::Function(func) => {
                let dst = self.new_temp();
                self.emit(TacInst::LoadFunc { dst, func });
                proof { assert(self.body() =~= b0 + g.code); lemma_match_refl(self.body()); }
                dst
            }
            RExprKind::Ref(lval) => self.lower_addr(lval),
            RExprKind::Binary { left, op, right } => {
                let ghost g1 = gen_expr(self.next_temp as nat, self.next_label as nat, *left).0;
                proof { lemma_gen_expr_mono(g1.next_temp, g1.next_label, *right); }
                let lhs = self.lower_expr(*left);
                let ghost b1 = self.body();
                let ghost g2 = gen_expr(self.next_temp as nat, self.next_label as nat, *right).0;
                let rhs = self.lower_expr(*right);
                let ghost b2 = self.body();
                let dst = self.new_temp();
                self.emit(TacInst::BinOp { dst, op, lhs, rhs });
                proof {
                    lemma_match_refl(g2.code);
                    lemma_match_append(b1, b0 + g1.code, g2.code, g2.code);
                    lemma_match_trans(b2, b1 + g2.code, b0 + g1.code + g2.code);
                    lemma_match_push(b2, b0 + g1.code + g2.code, TacInst::BinOp { dst, op, lhs, rhs });
                    assert((b0 + g1.code + g2.code).push(TacInst::BinOp { dst, op, lhs, rhs }) =~= b0 + g.code);
                }
                dst
            }
            RExprKind::Unary { op, expr: inner } => {
                let ghost g1 = gen_expr(self.next_temp as nat, self.next_label as nat, *inner).0;
                let src = self.lower_expr(*inner);
                let ghost b1 = self.body();
                let dst = self.new_temp();
                self.emit(TacInst::UnOp { dst, op, src });
                proof {
                    lemma_match_push(b1, b0 + g1.code, TacInst::UnOp { dst, op, src });
                    assert((b0 + g1.code).push(TacInst::UnOp { dst, op, src }) =~= b0 + g.code);
                }
                dst
            }
            RExprKind::Assign { target, val } => {
                let ghost (g1, v1) = gen_expr(self.next_temp as nat, self.next_label as nat, *val);
                proof {
                    lemma_gen_store_split(g1, target, v1);
                    lemma_gen_store_mono(Gen { code: Seq::empty(), ..g1 }, target, v1);
                }
                let v = self.lower_expr(*val);
                let ghost b1 = self.body();
                let ghost gs = gen_store(Gen { code: Seq::empty(), ..g1 }, target, v);
                self.lower_store(target, v);
                proof {
                    lemma_match_refl(gs.code);
                    lemma_match_append(b1, b0 + g1.code, gs.code, gs.code);
                    lemma_match_trans(self.body(), b1 + gs.code, b0 + g1.code + gs.code);
                    assert(b0 + g1.code + gs.code =~= b0 + g.code);
                }
                v
            }
            RExprKind::Call { callee, args } => {
                let ghost g1 = gen_expr(self.next_temp as nat, self.next_label as nat, *callee).0;
                proof { lemma_gen_args_mono(g1.next_temp + 1, g1.next_label, args@); }
                let ghost a0 = args;
                let c = self.lower_expr(*callee);
                let ghost b1 = self.body();
                let dst = self.new_temp();
                let ghost whole = gen_args(g1.next_temp + 1, g1.next_label, args@);
                let ghost av = args@;
                let mut rest = args;
                let ghost mut done: Seq<TacInst> = Seq::empty();
                let ghost mut i: int = 0;
                proof {
                    assert(av.subrange(0, av.len() as int) =~= av);
                    assert(done + whole.code =~= whole.code);
                    assert(b1 + done =~= b1);
                    lemma_match_refl(b1);
                }
                while rest.len() > 0
                    invariant
                        self.in_function(),
                        self.same_but_code(old(self)),
                        0 <= i <= av.len(),
                        rest@ == av.subrange(i, av.len() as int),
                        args_ok(rest@),
                        e0 == expr,
                        e0.kind == (RExprKind::Call { callee: e0.kind->callee, args: a0 }),
                        a0@ == av,
                        ({
                            let r = gen_args(self.next_temp as nat, self.next_label as nat, rest@);
                            whole == Gen { code: done + r.code, ..r }
                        }),
                        whole.next_temp <= u32::MAX,
                        whole.next_label <= u32::MAX,
                        insts_match(self.body(), b1 + done),
                    decreases rest@.len(),
                {
                    let ghost r0 = rest@;
                    let ghost bi = self.body();
                    let ghost r = gen_args(self.next_temp as nat, self.next_label as nat, r0);
                    let a = rest.remove(0);
                    proof {
                        assert(rest@ =~= r0.subrange(1, r0.len() as int));
                        assert(rest@ =~= av.subrange(i + 1, av.len() as int));
                        assert(a == av[i]);
                        lemma_gen_expr_mono(self.next_temp as nat, self.next_label as nat, a);
                        let ga = gen_expr(self.next_temp as nat, self.next_label as nat, a).0;
                        lemma_gen_args_mono(ga.next_temp, ga.next_label, rest@);
                        assert(decreases_to!(e0 => a)) by {
                            assert(decreases_to!(e0 => e0.kind));
                            assert(decreases_to!(e0.kind => e0.kind->args));
                            assert(decreases_to!(a0 => a0@));
                            assert(decreases_to!(a0@ => a0@[i]));
                        }
                    }
                    let ghost ga = gen_expr(self.next_temp as nat, self.next_label as nat, a).0;
                    let t = self.lower_expr(a);
                    let ghost b2 = self.body();
                    self.emit(TacInst::Param(t));
                    proof {
                        lemma_match_refl(ga.code);
                        lemma_match_append(bi, b1 + done, ga.code, ga.code);
                        lemma_match_trans(b2, bi + ga.code, b1 + done + ga.code);
                        lemma_match_push(b2, b1 + done + ga.code, TacInst::Param(t));
                        let r2 = gen_args(self.next_temp as nat, self.next_label as nat, rest@);
                        assert(r.code == ga.code.push(TacInst::Param(t)) + r2.code);
                        assert((b1 + done + ga.code).push(TacInst::Param(t)) =~= b1 + (done + ga.code.push(TacInst::Param(t))));
                        assert(done + r.code =~= (done + ga.code.push(TacInst::Param(t))) + r2.code);
                        done = done + ga.code.push(TacInst::Param(t));
                        i = i + 1;
                    }
                }
                let ghost b3 = self.body();
                self.emit(TacInst::Call { dst: Some(dst), callee: c });
                proof {
                    assert(rest@ =~= Seq::<RExpr>::empty());
                    lemma_match_refl(done);
                    lemma_match_append(b1, b0 + g1.code, done, done);
                    lemma_match_trans(b3, b1 + done, b0 + g1.code + done);
                    lemma_match_push(b3, b0 + g1.code + done, TacInst::Call { dst: Some(dst), callee: c });
                    assert((b0 + g1.code + done).push(TacInst::Call { dst: Some(dst), callee: c }) =~= b0 + g.code);
                }
                dst
            }
            _ => Temp(self.next_temp),
        }
    }

    /// Lowers the address of a place; the temporary that holds it.
    fn lower_addr(&mut self, lval: RLValue) -> (t: Temp)
        requires
            old(self).in_function(),
            lval_ok(lval),
            gen_addr(old(self).next_temp as nat, old(self).next_label as nat, lval).0.next_temp <= u32::MAX,
            gen_addr(old(self).next_temp as nat, old(self).next_label as nat, lval).0.next_label <= u32::MAX,
        ensures
            t == gen_addr(old(self).next_temp as nat, old(self).next_label as nat, lval).1,
            final(self).next_temp == gen_addr(old(self).next_temp as nat, old(self).next_label as nat, lval).0.next_temp,
            final(self).next_label == gen_addr(old(self).next_temp as nat, old(self).next_label as nat, lval).0.next_label,
            insts_match(final(self).body(), old(self).body() + gen_addr(old(self).next_temp as nat, old(self).next_label as nat, lval).0.code),
            final(self).in_function(),
            final(self).same_but_code(old(self)),
        decreases lval,
    {
        let ghost b0 = self.body();
        match lval {
            RLValue::Var(var) => {
                let dst = self.new_temp();
                self.emit(TacInst::AddrOf { dst, var });
                proof {
                    assert(self.body() =~= b0 + gen_addr(old(self).next_temp as nat, old(self).next_label as nat, lval).0.code);
                    lemma_match_refl(self.body());
                }
                dst
            }
            RLValue::Deref(e) => self.lower_expr(*e),
            RLValue::Error => Temp(self.next_temp),
        }
    }

    /// Lowers a store of temporary `v` into a place.
    fn lower_store(&mut self, target: RLValue, v: Temp)
        requires
            old(self).in_function(),
            lval_ok(target),
            gen_store(Gen { code: Seq::empty(), next_temp: old(self).next_temp as nat, next_label: old(self).next_label as nat }, target, v).next_temp <= u32::MAX,
            gen_store(Gen { code: Seq::empty(), next_temp: old(self).next_temp as nat, next_label: old(self).next_label as nat }, target, v).next_label <= u32::MAX,
        ensures
            ({
                let g = gen_store(Gen { code: Seq::empty(), next_temp: old(self).next_temp as nat, next_label: old(self).next_label as nat }, target, v);
                &&& final(self).next_temp == g.next_temp
                &&& final(self).next_label == g.next_label
                &&& insts_match(final(self).body(), old(self).body() + g.code)
            }),
            final(self).in_function(),
            final(self).same_but_code(old(self)),
        decreases target,
    {
        let ghost b0 = self.body();
        match target {
            RLValue::Var(var) => {
                self.emit(TacInst::StoreVar { var, src: v });
                proof {
                    assert(self.body() =~= b0 + Seq::<TacInst>::empty().push(TacInst::StoreVar { var, src: v }));
                    lemma_match_refl(self.body());
                }
            }
            RLValue::Deref(e) => {
                let ghost g1 = gen_expr(self.next_temp as nat, self.next_label as nat, *e).0;
                let addr = self.lower_expr(*e);
                let ghost b1 = self.body();
                self.emit(TacInst::Store { addr, src: v });
                proof {
                    lemma_match_push(b1, b0 + g1.code, TacInst::Store { addr, src: v });
                    assert((b0 + g1.code).push(TacInst::Store { addr, src: v }) =~= b0 + (Seq::<TacInst>::empty() + g1.code.push(TacInst::Store { addr, src: v })));
                }
            }
            RLValue::Error => {
                proof { assert(self.body() =~= b0 + Seq::<TacInst>::empty()); lemma_match_refl(self.body()); }
            }
        }
    }
}


/// A raw instruction built with given operands matches its description.
proof fn lemma_raw_inst(mnemonic: String, w: Vec<TacAsmOperand>)
    ensures
        inst_matches(TacInst::AsmRaw { mnemonic, args: w }, raw_inst(mnemonic, w@)),
{
    let v = choose|v: Vec<TacAsmOperand>| v@ == w@;
    assert(v@ == w@);
}

/// The code of `g` followed by more code stays matched by a body that
/// matched `g`'s code and then got the same code.
proof fn lemma_match_extend(b: Seq<TacInst>, base: Seq<TacInst>, code: Seq<TacInst>, b2: Seq<TacInst>, more: Seq<TacInst>)
    requires
        insts_match(b, base + code),
        insts_match(b2, b + more),
    ensures
        insts_match(b2, base + (code + more)),
{
    lemma_match_refl(more);
    lemma_match_append(b, base + code, more, more);
    lemma_match_trans(b2, b + more, base + code + more);
    assert(base + code + more =~= base + (code + more));
}

impl Lowerer {
    /// Lowers a statement.
    fn lower_stmt(&mut self, stmt: RStmt)
        requires
            old(self).in_function(),
            stmt_ok(stmt),
            gen_stmt(old(self).next_temp as nat, old(self).next_label as nat, stmt).next_temp <= u32::MAX,
            gen_stmt(old(self).next_temp as nat, old(self).next_label as nat, stmt).next_label <= u32::MAX,
        ensures
            final(self).next_temp == gen_stmt(old(self).next_temp as nat, old(self).next_label as nat, stmt).next_temp,
            final(self).next_label == gen_stmt(old(self).next_temp as nat, old(self).next_label as nat, stmt).next_label,
            insts_match(final(self).body(), old(self).body() + gen_stmt(old(self).next_temp as nat, old(self).next_label as nat, stmt).code),
            final(self).in_function(),
            final(self).same_but_code(old(self)),
        decreases stmt,
    {
        let ghost b0 = self.body();
        let ghost nt0 = self.next_temp as nat;
        let ghost nl0 = self.next_label as nat;
        let ghost g = gen_stmt(nt0, nl0, stmt);
        proof { lemma_gen_stmt_mono(nt0, nl0, stmt); }
        match stmt {
            RStmt::Let { var, val } => {
                if let Some(e) = val {
                    let ghost g1 = gen_expr(nt0, nl0, e).0;
                    let src = self.lower_expr(e);
                    let ghost b1 = self.body();
                    self.emit(TacInst::StoreVar { var, src });
                    proof {
                        lemma_match_push(b1, b0 + g1.code, TacInst::StoreVar { var, src });
                        assert((b0 + g1.code).push(TacInst::StoreVar { var, src }) =~= b0 + g.code);
                    }
                } else {
                    proof { assert(self.body() =~= b0 + g.code); lemma_match_refl(self.body()); }
                }
            }
            RStmt::Block(stmts) => {
                self.lower_block(stmts);
            }
            RStmt::Expr(e) => {
                self.lower_expr(e);
            }
            RStmt::If { cond, then_branch, else_branch } => {
                let ghost g1 = gen_expr(nt0, nl0 + 2, cond).0;
                proof {
                    lemma_gen_expr_mono(nt0, nl0 + 2, cond);
                    lemma_gen_stmt_mono(g1.next_temp, g1.next_label, *then_branch);
                    let g2 = gen_stmt(g1.next_temp, g1.next_label, *then_branch);
                    if else_branch is Some {
                        lemma_gen_stmt_mono(g2.next_temp, g2.next_label, *else_branch->0);
                    }
                    assert(self.body() =~= b0 + Seq::<TacInst>::empty());
                    lemma_match_refl(self.body());
                }
                let else_label = self.new_label();
                let end_label = self.new_label();
                let c = self.lower_expr(cond);
                let ghost b1 = self.body();
                self.emit(TacInst::JumpIfZero { cond: c, target: else_label });
                let ghost g2 = gen_stmt(g1.next_temp, g1.next_label, *then_branch);
                let ghost head1 = g1.code.push(TacInst::JumpIfZero { cond: c, target: else_label });
                proof {
                    lemma_match_push(b1, b0 + g1.code, TacInst::JumpIfZero { cond: c, target: else_label });
                    assert((b0 + g1.code).push(TacInst::JumpIfZero { cond: c, target: else_label }) =~= b0 + head1);
                }
                let ghost b2 = self.body();
                self.lower_stmt(*then_branch);
                proof { lemma_match_extend(b2, b0, head1, self.body(), g2.code); }
                let ghost head = head1 + g2.code;
                if let Some(eb) = else_branch {
                    let ghost b3 = self.body();
                    self.emit(TacInst::Jump(end_label));
                    self.emit(TacInst::Label(else_label));
                    let ghost mid = seq![TacInst::Jump(end_label), TacInst::Label(else_label)];
                    proof {
                        assert(self.body() =~= b3 + mid);
                        lemma_match_refl(self.body());
                        lemma_match_extend(b3, b0, head, self.body(), mid);
                    }
                    let ghost b4 = self.body();
                    let ghost g3 = gen_stmt(g2.next_temp, g2.next_label, *eb);
                    self.lower_stmt(*eb);
                    proof { lemma_match_extend(b4, b0, head + mid, self.body(), g3.code); }
                    let ghost b5 = self.body();
                    self.emit(TacInst::Label(end_label));
                    proof {
                        lemma_match_push(b5, b0 + (head + mid + g3.code), TacInst::Label(end_label));
                        assert((b0 + (head + mid + g3.code)).push(TacInst::Label(end_label)) =~= b0 + g.code);
                    }
                } else {
                    let ghost b3 = self.body();
                    self.emit(TacInst::Label(else_label));
                    proof {
                        lemma_match_push(b3, b0 + head, TacInst::Label(else_label));
                        assert((b0 + head).push(TacInst::Label(else_label)) =~= b0 + g.code);
                    }
                }
            }
            RStmt::While { cond, body } => {
                let ghost g1 = gen_expr(nt0, nl0 + 2, cond).0;
                proof {
                    lemma_gen_expr_mono(nt0, nl0 + 2, cond);
                    lemma_gen_stmt_mono(g1.next_temp, g1.next_label, *body);
                }
                let cond_label = self.new_label();
                let exit_label = self.new_label();
                self.emit(TacInst::Label(cond_label));
                let ghost head0 = seq![TacInst::Label(cond_label)];
                proof { assert(self.body() =~= b0 + head0); lemma_match_refl(self.body()); }
                let ghost b1 = self.body();
                let c = self.lower_expr(cond);
                proof { lemma_match_extend(b1, b0, head0, self.body(), g1.code); }
                let ghost b2 = self.body();
                self.emit(TacInst::JumpIfZero { cond: c, target: exit_label });
                let ghost head1 = head0 + g1.code.push(TacInst::JumpIfZero { cond: c, target: exit_label });
                proof {
                    lemma_match_push(b2, b0 + (head0 + g1.code), TacInst::JumpIfZero { cond: c, target: exit_label });
                    assert((b0 + (head0 + g1.code)).push(TacInst::JumpIfZero { cond: c, target: exit_label }) =~= b0 + head1);
                }
                let ghost b3 = self.body();
                let ghost g2 = gen_stmt(g1.next_temp, g1.next_label, *body);
                self.lower_stmt(*body);
                proof { lemma_match_extend(b3, b0, head1, self.body(), g2.code); }
                let ghost b4 = self.body();
                self.emit(TacInst::Jump(cond_label));
                self.emit(TacInst::Label(exit_label));
                let ghost tail = seq![TacInst::Jump(cond_label), TacInst::Label(exit_label)];
                proof {
                    assert(self.body() =~= b4 + tail);
                    lemma_match_refl(self.body());
                    lemma_match_extend(b4, b0, head1 + g2.code, self.body(), tail);
                    assert(b0 + (head1 + g2.code + tail) =~= b0 + g.code);
                }
            }
            RStmt::Asm(items) => {
                self.lower_asm(items);
            }
            RStmt::Return(val) => {
                if let Some(e) = val {
                    let ghost g1 = gen_expr(nt0, nl0, e).0;
                    let t = self.lower_expr(e);
                    let ghost b1 = self.body();
                    self.emit(TacInst::Return(Some(t)));
                    proof {
                        lemma_match_push(b1, b0 + g1.code, TacInst::Return(Some(t)));
                        assert((b0 + g1.code).push(TacInst::Return(Some(t))) =~= b0 + g.code);
                    }
                } else {
                    self.emit(TacInst::Return(None));
                    proof { assert(self.body() =~= b0 + g.code); lemma_match_refl(self.body()); }
                }
            }
            RStmt::Error => {
                proof { assert(self.body() =~= b0 + g.code); lemma_match_refl(self.body()); }
            }
        }
    }

    /// Lowers the statements of a block in order.
    fn lower_block(&mut self, stmts: Vec<RStmt>)
        requires
            old(self).in_function(),
            stmts_ok(stmts@),
            gen_stmts(old(self).next_temp as nat, old(self).next_label as nat, stmts@).next_temp <= u32::MAX,
            gen_stmts(old(self).next_temp as nat, old(self).next_label as nat, stmts@).next_label <= u32::MAX,
        ensures
            final(self).next_temp == gen_stmts(old(self).next_temp as nat, old(self).next_label as nat, stmts@).next_temp,
            final(self).next_label == gen_stmts(old(self).next_temp as nat, old(self).next_label as nat, stmts@).next_label,
            insts_match(final(self).body(), old(self).body() + gen_stmts(old(self).next_temp as nat, old(self).next_label as nat, stmts@).code),
            final(self).in_function(),
            final(self).same_but_code(old(self)),
        decreases stmts,
    {
        let ghost s0 = stmts;
        let ghost sv = stmts@;
        let ghost b0 = self.body();
        let ghost whole = gen_stmts(self.next_temp as nat, self.next_label as nat, sv);
        let mut rest = stmts;
        let ghost mut done: Seq<TacInst> = Seq::empty();
        let ghost mut i: int = 0;
        proof {
            assert(sv.subrange(0, sv.len() as int) =~= sv);
            assert(done + whole.code =~= whole.code);
            assert(b0 + done =~= b0);
            lemma_match_refl(b0);
        }
        while rest.len() > 0
            invariant
                self.in_function(),
                self.same_but_code(old(self)),
                0 <= i <= sv.len(),
                s0 == stmts,
                s0@ == sv,
                rest@ == sv.subrange(i, sv.len() as int),
                stmts_ok(rest@),
                ({
                    let r = gen_stmts(self.next_temp as nat, self.next_label as nat, rest@);
                    whole == Gen { code: done + r.code, ..r }
                }),
                whole.next_temp <= u32::MAX,
                whole.next_label <= u32::MAX,
                insts_match(self.body(), b0 + done),
            decreases rest@.len(),
        {
            let ghost r0 = rest@;
            let ghost bi = self.body();
            let ghost r = gen_stmts(self.next_temp as nat, self.next_label as nat, r0);
            let st = rest.remove(0);
            proof {
                assert(rest@ =~= r0.subrange(1, r0.len() as int));
                assert(rest@ =~= sv.subrange(i + 1, sv.len() as int));
                assert(st == sv[i]);
                lemma_gen_stmt_mono(self.next_temp as nat, self.next_label as nat, st);
                let gs = gen_stmt(self.next_temp as nat, self.next_label as nat, st);
                lemma_gen_stmts_mono(gs.next_temp, gs.next_label, rest@);
                assert(decreases_to!(s0 => st)) by {
                    assert(decreases_to!(s0 => s0@));
                    assert(decreases_to!(s0@ => s0@[i]));
                }
            }
            let ghost gs = gen_stmt(self.next_temp as nat, self.next_label as nat, st);
            self.lower_stmt(st);
            proof {
                lemma_match_extend(bi, b0, done, self.body(), gs.code);
                let r2 = gen_stmts(self.next_temp as nat, self.next_label as nat, rest@);
                assert(r.code == gs.code + r2.code);
                assert(done + r.code =~= (done + gs.code) + r2.code);
                done = done + gs.code;
                i = i + 1;
            }
        }
        proof { assert(rest@ =~= Seq::<RStmt>::empty()); assert(done + whole.code.subrange(0, 0) =~= done); }
    }
}


/// The code of one item of inline assembly.
pub open spec fn gen_asm_item(nt: nat, nl: nat, item: RAsmItem) -> Gen {
    match item {
        RAsmItem::In { reg, expr } => {
            let (g, src) = gen_expr(nt, nl, expr);
            Gen { code: g.code.push(TacInst::AsmIn { dst: conv_reg_spec(reg), src }), ..g }
        },
        RAsmItem::Out { reg, lval } => {
            let dst = Temp(nt as u32);
            let g = Gen { code: seq![TacInst::AsmOut { dst, src: conv_reg_spec(reg) }], next_temp: nt + 1, next_label: nl };
            gen_store(g, lval, dst)
        },
        RAsmItem::Instr { mnemonic, args } => Gen {
            code: seq![raw_inst(mnemonic, args@.map_values(|a: RAsmOperand| conv_operand(a)))],
            next_temp: nt,
            next_label: nl,
        },
        RAsmItem::Error => Gen { code: Seq::empty(), next_temp: nt, next_label: nl },
    }
}

/// The operands of a raw instruction for resolved ones.
fn conv_operands(args: &Vec<RAsmOperand>) -> (r: Vec<TacAsmOperand>)
    ensures
        r@ == args@.map_values(|a: RAsmOperand| conv_operand(a)),
{
    let mut r: Vec<TacAsmOperand> = Vec::new();
    let mut k: usize = 0;
    while k < args.len()
        invariant
            k <= args@.len(),
            r@ == args@.take(k as int).map_values(|a: RAsmOperand| conv_operand(a)),
        decreases args@.len() - k,
    {
        let op = match &args[k] {
            RAsmOperand::Reg(reg) => TacAsmOperand::Reg(conv_reg(*reg)),
            RAsmOperand::Imm(n) => TacAsmOperand::Imm(*n),
            RAsmOperand::Error => TacAsmOperand::Imm(0),
        };
        r.push(op);
        assert(args@.take(k + 1).map_values(|a: RAsmOperand| conv_operand(a))
            =~= args@.take(k as int).map_values(|a: RAsmOperand| conv_operand(a)).push(conv_operand(args@[k as int])));
        k += 1;
    }
    assert(args@.take(args@.len() as int) =~= args@);
    r
}

impl Lowerer {
    /// Lowers the items of an inline assembly statement in order.
    fn lower_asm(&mut self, items: Vec<RAsmItem>)
        requires
            old(self).in_function(),
            asm_ok(items@),
            gen_asm(old(self).next_temp as nat, old(self).next_label as nat, items@).next_temp <= u32::MAX,
            gen_asm(old(self).next_temp as nat, old(self).next_label as nat, items@).next_label <= u32::MAX,
        ensures
            final(self).next_temp == gen_asm(old(self).next_temp as nat, old(self).next_label as nat, items@).next_temp,
            final(self).next_label == gen_asm(old(self).next_temp as nat, old(self).next_label as nat, items@).next_label,
            insts_match(final(self).body(), old(self).body() + gen_asm(old(self).next_temp as nat, old(self).next_label as nat, items@).code),
            final(self).in_function(),
            final(self).same_but_code(old(self)),
        decreases items,
    {
        let ghost i0 = items;
        let ghost iv = items@;
        let ghost b0 = self.body();
        let ghost whole = gen_asm(self.next_temp as nat, self.next_label as nat, iv);
        let mut rest = items;
        let ghost mut done: Seq<TacInst> = Seq::empty();
        let ghost mut i: int = 0;
        proof {
            assert(iv.subrange(0, iv.len() as int) =~= iv);
            assert(done + whole.code =~= whole.code);
            assert(b0 + done =~= b0);
            lemma_match_refl(b0);
        }
        while rest.len() > 0
            invariant
                self.in_function(),
                self.same_but_code(old(self)),
                0 <= i <= iv.len(),
                i0 == items,
                i0@ == iv,
                rest@ == iv.subrange(i, iv.len() as int),
                asm_ok(rest@),
                ({
                    let r = gen_asm(self.next_temp as nat, self.next_label as nat, rest@);
                    whole == Gen { code: done + r.code, ..r }
                }),
                whole.next_temp <= u32::MAX,
                whole.next_label <= u32::MAX,
                insts_match(self.body(), b0 + done),
            decreases rest@.len(),
        {
            let ghost r0 = rest@;
            let ghost bi = self.body();
            let ghost nti = self.next_temp as nat;
            let ghost nli = self.next_label as nat;
            let ghost r = gen_asm(nti, nli, r0);
            let item = rest.remove(0);
            let ghost gi = gen_asm_item(nti, nli, item);
            proof {
                assert(rest@ =~= r0.subrange(1, r0.len() as int));
                assert(rest@ =~= iv.subrange(i + 1, iv.len() as int));
                assert(item == iv[i]);
                lemma_gen_asm_mono(gi.next_temp, gi.next_label, rest@);
            }
            match item {
                RAsmItem::In { reg, expr } => {
                    proof {
                        lemma_gen_expr_mono(nti, nli, expr);
                    }
                    let ghost g1 = gen_expr(nti, nli, expr).0;
                    let src = self.lower_expr(expr);
                    let ghost b1 = self.body();
                    let dst = conv_reg(reg);
                    self.emit(TacInst::AsmIn { dst, src });
                    proof {
                        lemma_match_extend(bi, b0, done, b1, g1.code);
                        lemma_match_push(b1, b0 + (done + g1.code), TacInst::AsmIn { dst, src });
                        assert((b0 + (done + g1.code)).push(TacInst::AsmIn { dst, src }) =~= b0 + (done + gi.code));
                    }
                }
                RAsmItem::Out { reg, lval } => {
                    let g0 = Ghost(Gen { code: seq![TacInst::AsmOut { dst: Temp(nti as u32), src: conv_reg_spec(reg) }], next_temp: nti + 1, next_label: nli });
                    proof {
                        lemma_gen_store_mono(g0@, lval, Temp(nti as u32));
                        lemma_gen_store_split(g0@, lval, Temp(nti as u32));
                    }
                    let dst = self.new_temp();
                    let src = conv_reg(reg);
                    self.emit(TacInst::AsmOut { dst, src });
                    let ghost b1 = self.body();
                    proof {
                        lemma_match_push(bi, b0 + done, TacInst::AsmOut { dst, src });
                        assert((b0 + done).push(TacInst::AsmOut { dst, src }) =~= b0 + (done + g0@.code));
                    }
                    let ghost gs = gen_store(Gen { code: Seq::empty(), ..g0@ }, lval, dst);
                    self.lower_store(lval, dst);
                    proof {
                        lemma_match_extend(b1, b0, done + g0@.code, self.body(), gs.code);
                        assert(b0 + (done + g0@.code + gs.code) =~= b0 + (done + gi.code));
                    }
                }
                RAsmItem::Instr { mnemonic, args } => {
                    let ops = conv_operands(&args);
                    proof { lemma_raw_inst(mnemonic, ops); }
                    self.emit(TacInst::AsmRaw { mnemonic, args: ops });
                    proof {
                        let x = TacInst::AsmRaw { mnemonic, args: ops };
                        let y = raw_inst(mnemonic, args@.map_values(|a: RAsmOperand| conv_operand(a)));
                        assert(insts_match(seq![x], seq![y]));
                        lemma_match_append(bi, b0 + done, seq![x], seq![y]);
                        assert(bi + seq![x] =~= self.body());
                        assert(b0 + done + seq![y] =~= b0 + (done + gi.code));
                    }
                }
                RAsmItem::Error => {}
            }
            proof {
                let r2 = gen_asm(self.next_temp as nat, self.next_label as nat, rest@);
                assert(r.code == gi.code + r2.code);
                assert(done + r.code =~= (done + gi.code) + r2.code);
                done = done + gi.code;
                i = i + 1;
            }
        }
        proof { assert(rest@ =~= Seq::<RAsmItem>::empty()); assert(done + whole.code.subrange(0, 0) =~= done); }
    }
}


/// The variables of a function's parameters.
pub open spec fn param_ids(params: Seq<(VarId, Ty)>) -> Seq<VarId> {
    params.map_values(|p: (VarId, Ty)| p.0)
}

/// Whether `f` is the lowering of `r`: the same id, parameters and locals,
/// as many temporaries as lowering its body took, and that body's code.
pub open spec fn func_lowered(f: TacFunction, r: RFunction) -> bool {
    let g = gen_stmt(0, 0, r.body);
    &&& f.id == r.id
    &&& f.params@ == param_ids(r.params@)
    &&& f.locals == r.locals
    &&& f.num_temps as nat == g.next_temp
    &&& insts_match(f.body@, g.code)
}

/// Whether a function can be lowered and its code optimized: no error
/// node, and counts that fit.
pub open spec fn func_lowerable(r: RFunction) -> bool {
    let g = gen_stmt(0, 0, r.body);
    &&& stmt_ok(r.body)
    &&& g.next_temp <= u32::MAX
    &&& g.next_label <= u32::MAX
    &&& 3 * g.code.len() + 3 < u32::MAX
}

/// The functions of all modules, module by module.
pub open spec fn all_functions(modules: Seq<RModule>) -> Seq<RFunction>
    decreases modules.len(),
{
    if modules.len() == 0 {
        Seq::empty()
    } else {
        all_functions(modules.drop_last()) + modules.last().functions@
    }
}

/// The bodies of functions.
pub open spec fn bodies_of(funcs: Seq<TacFunction>) -> Seq<Seq<TacInst>>
    decreases funcs.len(),
{
    if funcs.len() == 0 {
        Seq::empty()
    } else {
        bodies_of(funcs.drop_last()).push(funcs.last().body@)
    }
}

proof fn lemma_bodies_of(funcs: Seq<TacFunction>)
    ensures
        bodies_of(funcs).len() == funcs.len(),
        forall|k: int| 0 <= k < funcs.len() ==> #[trigger] bodies_of(funcs)[k] == funcs[k].body@,
    decreases funcs.len(),
{
    if funcs.len() > 0 {
        lemma_bodies_of(funcs.drop_last());
        assert forall|k: int| 0 <= k < funcs.len() implies #[trigger] bodies_of(funcs)[k] == funcs[k].body@ by {
            if k < funcs.len() - 1 {
                assert(bodies_of(funcs.drop_last())[k] == funcs.drop_last()[k].body@);
            }
        }
    }
}

/// The variables of a function's parameters.
fn param_vars(params: &Vec<(VarId, Ty)>) -> (r: Vec<VarId>)
    ensures
        r@ == param_ids(params@),
{
    let mut r: Vec<VarId> = Vec::new();
    let mut k: usize = 0;
    while k < params.len()
        invariant
            k <= params@.len(),
            r@ == param_ids(params@.take(k as int)),
        decreases params@.len() - k,
    {
        r.push(params[k].0);
        assert(param_ids(params@.take(k + 1)) =~= param_ids(params@.take(k as int)).push(params@[k as int].0));
        k += 1;
    }
    assert(params@.take(params@.len() as int) =~= params@);
    r
}

impl Lowerer {
    /// The resolved program still to be lowered.
    pub closed spec fn source(&self) -> RProgram {
        self.rprogram
    }

    /// The program lowered so far.
    pub closed spec fn target(&self) -> TacProgram {
        self.tacprogram
    }

    /// Whether no function is being lowered.
    pub closed spec fn idle(&self) -> bool {
        self.current_function is None
    }

    /// A lowerer of `rprogram`, with nothing lowered yet.
    pub fn new(rprogram: RProgram) -> (l: Self)
        ensures
            l.source() == rprogram,
            l.target().funcs@.len() == 0,
            l.idle(),
    {
        Lowerer {
            rprogram,
            tacprogram: TacProgram { funcs: Vec::new() },
            next_temp: 0,
            next_label: 0,
            current_function: None,
        }
    }

    /// Moves the function being lowered, if any, into the program.
    fn finish_func(&mut self)
        ensures
            final(self).idle(),
            final(self).tacprogram.funcs@ == match old(self).current_function {
                Some(f) => old(self).tacprogram.funcs@.push(f),
                None => old(self).tacprogram.funcs@,
            },
            final(self).rprogram == old(self).rprogram,
    {
        if let Some(func) = self.current_function.take() {
            self.tacprogram.funcs.push(func);
        }
    }

    /// Starts lowering a function, moving any unfinished one into the program.
    fn new_func(&mut self, id: FuncId, locals: Vec<Ty>, params: Vec<VarId>)
        ensures
            final(self).in_function(),
            final(self).next_temp == 0,
            final(self).next_label == 0,
            final(self).body() == Seq::<TacInst>::empty(),
            final(self).current_function.unwrap().id == id,
            final(self).current_function.unwrap().params == params,
            final(self).current_function.unwrap().locals == locals,
            final(self).tacprogram.funcs@ == match old(self).current_function {
                Some(f) => old(self).tacprogram.funcs@.push(f),
                None => old(self).tacprogram.funcs@,
            },
            final(self).rprogram == old(self).rprogram,
    {
        self.finish_func();
        self.next_temp = 0;
        self.next_label = 0;
        self.current_function = Some(TacFunction { id, params, num_temps: 0, locals, body: Vec::new() });
    }

    /// Lowers a function and moves it into the program.
    fn lower_function(&mut self, func: RFunction)
        requires
            old(self).idle(),
            func_lowerable(func),
        ensures
            final(self).idle(),
            final(self).tacprogram.funcs@.len() == old(self).tacprogram.funcs@.len() + 1,
            final(self).tacprogram.funcs@.take(old(self).tacprogram.funcs@.len() as int) == old(self).tacprogram.funcs@,
            func_lowered(final(self).tacprogram.funcs@.last(), func),
            final(self).rprogram == old(self).rprogram,
    {
        let ghost f0 = func;
        let RFunction { id, module: _, name: _, params, ret: _, locals, body } = func;
        let vars = param_vars(&params);
        self.new_func(id, locals, vars);
        proof { lemma_gen_stmt_mono(0, 0, body); }
        self.lower_stmt(body);
        let ghost f = self.current_function.unwrap();
        proof {
            assert(Seq::<TacInst>::empty() + gen_stmt(0, 0, f0.body).code =~= gen_stmt(0, 0, f0.body).code);
        }
        self.finish_func();
        proof {
            assert(self.tacprogram.funcs@.last() == f);
            assert(self.tacprogram.funcs@.take(old(self).tacprogram.funcs@.len() as int) =~= old(self).tacprogram.funcs@);
        }
    }

    /// The program lowered so far.
    pub fn into_tacprogram(self) -> (p: TacProgram)
        ensures
            p == self.target(),
    {
        self.tacprogram
    }
}


/// The functions of the first modules and then of one more.
proof fn lemma_all_functions_take(modules: Seq<RModule>, i: int)
    requires
        0 <= i < modules.len(),
    ensures
        all_functions(modules.take(i + 1)) == all_functions(modules.take(i)) + modules[i].functions@,
{
    assert(modules.take(i + 1).drop_last() =~= modules.take(i));
}

/// Whether `cur` differs from `lw` in bodies and counts of temporaries only.
pub open spec fn same_functions(cur: Seq<TacFunction>, lw: Seq<TacFunction>) -> bool {
    &&& cur.len() == lw.len()
    &&& forall|k: int| 0 <= k < cur.len() ==>
        #[trigger] cur[k] == (TacFunction { body: cur[k].body, num_temps: cur[k].num_temps, ..lw[k] })
}

impl Lowerer {
    /// Lowers every function of every module, in order, into the program.
    fn lower_all(&mut self, modules: Vec<RModule>)
        requires
            old(self).idle(),
            forall|k: int| 0 <= k < all_functions(modules@).len() ==> func_lowerable(#[trigger] all_functions(modules@)[k]),
        ensures
            final(self).idle(),
            final(self).tacprogram.funcs@.len() == old(self).tacprogram.funcs@.len() + all_functions(modules@).len(),
            final(self).tacprogram.funcs@.take(old(self).tacprogram.funcs@.len() as int) == old(self).tacprogram.funcs@,
            forall|k: int| 0 <= k < all_functions(modules@).len() ==>
                func_lowered(#[trigger] final(self).tacprogram.funcs@[old(self).tacprogram.funcs@.len() + k], all_functions(modules@)[k]),
    {
        let ghost m0 = modules@;
        let ghost rf = all_functions(m0);
        let ghost base = self.tacprogram.funcs@;
        let mut mods = modules;
        let ghost mut mi: int = 0;
        proof { assert(m0.subrange(0, m0.len() as int) =~= m0); assert(m0.take(0) =~= Seq::<RModule>::empty()); }
        while mods.len() > 0
            invariant
                self.idle(),
                0 <= mi <= m0.len(),
                mods@ == m0.subrange(mi, m0.len() as int),
                rf == all_functions(m0),
                forall|k: int| 0 <= k < rf.len() ==> func_lowerable(#[trigger] rf[k]),
                all_functions(m0.take(mi)).len() <= rf.len(),
                all_functions(m0.take(mi)) == rf.take(all_functions(m0.take(mi)).len() as int),
                self.tacprogram.funcs@.len() == base.len() + all_functions(m0.take(mi)).len(),
                self.tacprogram.funcs@.take(base.len() as int) == base,
                forall|k: int| 0 <= k < all_functions(m0.take(mi)).len() ==>
                    func_lowered(#[trigger] self.tacprogram.funcs@[base.len() + k], rf[k]),
            decreases mods@.len(),
        {
            let ghost r0 = mods@;
            let module = mods.remove(0);
            proof {
                assert(mods@ =~= m0.subrange(mi + 1, m0.len() as int));
                assert(module == m0[mi]);
                lemma_all_functions_take(m0, mi);
                lemma_all_functions_prefix(m0, mi + 1);
            }
            let ghost before = all_functions(m0.take(mi)).len();
            let ghost fv = module.functions@;
            let mut funcs = module.functions;
            let ghost mut fi: int = 0;
            proof {
                assert(fv.subrange(0, fv.len() as int) =~= fv);
                let a = all_functions(m0.take(mi));
                let b = all_functions(m0.take(mi + 1));
                assert(b == a + fv);
                assert forall|j: int| 0 <= j < fv.len() implies #[trigger] fv[j] == rf[before + j] by {
                    assert(b[before + j] == fv[j]);
                    assert(rf.take(b.len() as int)[before + j] == rf[before + j]);
                }
            }
            while funcs.len() > 0
                invariant
                    self.idle(),
                    0 <= fi <= fv.len(),
                    funcs@ == fv.subrange(fi, fv.len() as int),
                    rf == all_functions(m0),
                    forall|k: int| 0 <= k < rf.len() ==> func_lowerable(#[trigger] rf[k]),
                    before + fv.len() <= rf.len(),
                    forall|j: int| 0 <= j < fv.len() ==> #[trigger] fv[j] == rf[before + j],
                    self.tacprogram.funcs@.len() == base.len() + before + fi,
                    self.tacprogram.funcs@.take(base.len() as int) == base,
                    forall|k: int| 0 <= k < before + fi ==>
                        func_lowered(#[trigger] self.tacprogram.funcs@[base.len() + k], rf[k]),
                decreases funcs@.len(),
            {
                let ghost p0 = self.tacprogram.funcs@;
                let func = funcs.remove(0);
                proof {
                    assert(funcs@ =~= fv.subrange(fi + 1, fv.len() as int));
                    assert(func == fv[fi]);
                    assert(func == rf[before + fi]);
                }
                self.lower_function(func);
                proof {
                    let p1 = self.tacprogram.funcs@;
                    assert forall|k: int| 0 <= k < before + fi + 1 implies
                        func_lowered(#[trigger] p1[base.len() + k], rf[k]) by {
                        if k < before + fi {
                            assert(p1[base.len() + k] == p0[base.len() + k]);
                        }
                    }
                    assert(p1.take(base.len() as int) =~= p0.take(base.len() as int));
                    fi = fi + 1;
                }
            }
            proof { mi = mi + 1; }
        }
        proof { assert(m0.take(m0.len() as int) =~= m0); }
    }
}

/// The functions of the first modules are the first functions of all.
proof fn lemma_all_functions_prefix(modules: Seq<RModule>, i: int)
    requires
        0 <= i <= modules.len(),
    ensures
        all_functions(modules.take(i)).len() <= all_functions(modules).len(),
        all_functions(modules.take(i)) == all_functions(modules).take(all_functions(modules.take(i)).len() as int),
    decreases modules.len() - i,
{
    if i == modules.len() {
        assert(modules.take(i) =~= modules);
        assert(all_functions(modules).take(all_functions(modules).len() as int) =~= all_functions(modules));
    } else {
        lemma_all_functions_prefix(modules, i + 1);
        lemma_all_functions_take(modules, i);
        let a = all_functions(modules.take(i));
        let b = all_functions(modules.take(i + 1));
        assert(b.take(a.len() as int) =~= a);
        assert(all_functions(modules).take(a.len() as int) =~= all_functions(modules).take(b.len() as int).take(a.len() as int));
    }
}


/// Whether `lw` holds the lowering of each function of `rf`, in order.
pub open spec fn lowered_program(lw: Seq<TacFunction>, rf: Seq<RFunction>) -> bool {
    &&& lw.len() == rf.len()
    &&& forall|k: int| 0 <= k < lw.len() ==> func_lowered(#[trigger] lw[k], rf[k])
}

/// Whether `out` is `lw` once the rounds of optimization stop: each
/// function's body and count of temporaries as the rounds leave them, the
/// rest as it was.
pub open spec fn optimized_program(out: Seq<TacFunction>, lw: Seq<TacFunction>) -> bool {
    &&& same_functions(out, lw)
    &&& optimized(bodies_of(lw)).len() == out.len()
    &&& forall|k: int| 0 <= k < out.len() ==>
        #[trigger] optimized(bodies_of(lw))[k] == (out[k].body@, out[k].num_temps as nat)
}

/// A program the rounds of optimization leave is a fixpoint of the three
/// passes: on each function's body, propagation, elimination and
/// renumbering report no change, and its count of temporaries is the one
/// renumbering gives it.
pub proof fn lemma_lowered_fixpoint(out: Seq<TacFunction>, lw: Seq<TacFunction>)
    requires
        optimized_program(out, lw),
        small(bodies_of(lw)),
    ensures
        forall|k: int| 0 <= k < out.len() ==> {
            let b = #[trigger] out[k].body@;
            &&& !propagate(b).1
            &&& !dce_prefix(b, b.len()).1
            &&& !remap_prefix(b, b.len()).2
            &&& remap_prefix(b, b.len()).1.next == out[k].num_temps
        },
{
    lemma_bodies_of(lw);
    lemma_optimized_fixpoint(bodies_of(lw));
    assert forall|k: int| 0 <= k < out.len() implies {
        let b = #[trigger] out[k].body@;
        &&& !propagate(b).1
        &&& !dce_prefix(b, b.len()).1
        &&& !remap_prefix(b, b.len()).2
        &&& remap_prefix(b, b.len()).1.next == out[k].num_temps
    } by {
        assert(optimized(bodies_of(lw))[k] == (out[k].body@, out[k].num_temps as nat));
    }
}

/// What propagation over a program guarantees.
pub open spec fn propagated(a: Seq<TacFunction>, b: Seq<TacFunction>, ch: bool) -> bool {
    &&& b.len() == a.len()
    &&& forall|k: int| 0 <= k < a.len() ==> {
        let f = #[trigger] a[k];
        b[k] == TacFunction { body: b[k].body, ..f } && b[k].body@ == propagate(f.body@).0
    }
    &&& ch == exists|k: int| 0 <= k < a.len() && (#[trigger] propagate(a[k].body@)).1
}

/// What elimination over a program guarantees.
pub open spec fn eliminated(a: Seq<TacFunction>, b: Seq<TacFunction>, ch: bool) -> bool {
    &&& b.len() == a.len()
    &&& forall|k: int| 0 <= k < a.len() ==> {
        let f = #[trigger] a[k];
        b[k] == TacFunction { body: b[k].body, ..f } && b[k].body@ == dce_prefix(f.body@, f.body@.len()).0
    }
    &&& ch == exists|k: int| 0 <= k < a.len() && (#[trigger] dce_prefix(a[k].body@, a[k].body@.len())).1
}

/// What renumbering over a program guarantees.
pub open spec fn renumbered(a: Seq<TacFunction>, b: Seq<TacFunction>, ch: bool) -> bool {
    &&& b.len() == a.len()
    &&& forall|k: int| 0 <= k < a.len() ==> {
        let f = #[trigger] a[k];
        let (out, st, _) = remap_prefix(f.body@, f.body@.len());
        b[k] == TacFunction { body: b[k].body, num_temps: st.next as u32, ..f } && b[k].body@ == out
    }
    &&& ch == exists|k: int| 0 <= k < a.len() && (#[trigger] remap_prefix(a[k].body@, a[k].body@.len())).2
}

/// Three passes over a program make one round over its bodies.
proof fn lemma_round_program(
    c0: Seq<TacFunction>, c1: Seq<TacFunction>, c2: Seq<TacFunction>, c3: Seq<TacFunction>,
    ch1: bool, ch2: bool, ch3: bool,
)
    requires
        small(bodies_of(c0)),
        propagated(c0, c1, ch1),
        eliminated(c1, c2, ch2),
        renumbered(c2, c3, ch3),
    ensures
        bodies_of(c3) == next_bodies(bodies_of(c0)),
        (ch1 || ch2 || ch3) == round_changed(bodies_of(c0)),
        same_functions(c3, c0),
        forall|k: int| 0 <= k < c0.len() ==>
            #[trigger] round_results(bodies_of(c0))[k] == (c3[k].body@, c3[k].num_temps as nat),
        round_results(bodies_of(c0)).len() == c3.len(),
        small(bodies_of(c3)),
{
    lemma_bodies_of(c0);
    lemma_bodies_of(c3);
    let b0 = bodies_of(c0);
    lemma_next_small(b0);
    assert forall|k: int| 0 <= k < c0.len() implies
        (#[trigger] c3[k]).body@ == round_body(b0[k]).0 && c3[k].num_temps as nat == round_body(b0[k]).1
        && c3[k] == (TacFunction { body: c3[k].body, num_temps: c3[k].num_temps, ..c0[k] }) by {
        assert(b0[k] == c0[k].body@);
        assert(3 * b0[k].len() + 3 < u32::MAX);
        lemma_propagate_weight(b0[k]);
        let b1 = c1[k].body@;
        lemma_dce_weight(b1, b1.len());
        let b2 = c2[k].body@;
        lemma_remap_prefix_bounds(b2, b2.len());
        assert(c1[k] == TacFunction { body: c1[k].body, ..c0[k] });
        assert(c2[k] == TacFunction { body: c2[k].body, ..c1[k] });
    }
    assert(bodies_of(c3) =~= next_bodies(b0));
    if ch1 || ch2 || ch3 {
        if ch1 {
            let k = choose|k: int| 0 <= k < c0.len() && (#[trigger] propagate(c0[k].body@)).1;
            assert(round_body(b0[k]).2);
        } else if ch2 {
            let k = choose|k: int| 0 <= k < c1.len() && (#[trigger] dce_prefix(c1[k].body@, c1[k].body@.len())).1;
            assert(round_body(b0[k]).2);
        } else {
            let k = choose|k: int| 0 <= k < c2.len() && (#[trigger] remap_prefix(c2[k].body@, c2[k].body@.len())).2;
            assert(round_body(b0[k]).2);
        }
    }
    if round_changed(b0) {
        let k = choose|k: int| 0 <= k < b0.len() && (#[trigger] round_body(b0[k])).2;
        assert(b0[k] == c0[k].body@);
        if propagate(b0[k]).1 {
            assert(ch1);
        } else if dce_prefix(c1[k].body@, c1[k].body@.len()).1 {
            assert(ch2);
        } else {
            assert(remap_prefix(c2[k].body@, c2[k].body@.len()).2);
            assert(ch3);
        }
    }
}

impl Lowerer {
    /// Lowers the whole program, then runs constant propagation, dead
    /// temporary elimination and renumbering of temporaries, in that order,
    /// round after round until a round changes nothing.
    pub fn lower(self) -> (p: TacProgram)
        requires
            self.idle(),
            self.target().funcs@.len() == 0,
            forall|k: int| 0 <= k < all_functions(self.source().modules@).len() ==>
                func_lowerable(#[trigger] all_functions(self.source().modules@)[k]),
        ensures
            exists|lw: Seq<TacFunction>|
                lowered_program(lw, all_functions(self.source().modules@)) && optimized_program(p.funcs@, lw),
    {
        let ghost rf = all_functions(self.rprogram.modules@);
        let ghost m_all = self.rprogram.modules@;
        proof {
            assert forall|k: int| 0 <= k < rf.len() implies func_lowerable(#[trigger] rf[k]) by {
                assert(rf == all_functions(self.source().modules@));
            }
        }
        let mut this = self;
        let mut modules: Vec<RModule> = Vec::new();
        std::mem::swap(&mut modules, &mut this.rprogram.modules);
        proof { assert(modules@ == m_all); }
        this.lower_all(modules);
        this.finish_func();
        let ghost lw = this.tacprogram.funcs@;
        proof {
            assert(lw.take(0) =~= Seq::<TacFunction>::empty());
            assert(lowered_program(lw, rf)) by {
                assert forall|k: int| 0 <= k < lw.len() implies func_lowered(#[trigger] lw[k], rf[k]) by {
                    assert(lw[0 + k] == lw[k]);
                }
            }
            lemma_bodies_of(lw);
            assert forall|k: int| 0 <= k < bodies_of(lw).len() implies 3 * (#[trigger] bodies_of(lw)[k]).len() + 3 < u32::MAX by {
                assert(func_lowered(lw[k], rf[k]));
                assert(func_lowerable(rf[k]));
            }
            assert forall|k: int| 0 <= k < lw.len() implies
                #[trigger] lw[k] == (TacFunction { body: lw[k].body, num_temps: lw[k].num_temps, ..lw[k] }) by {}
        }
        let mut changed = true;
        while changed
            invariant
                lowered_program(lw, rf),
                same_functions(this.tacprogram.funcs@, lw),
                small(bodies_of(this.tacprogram.funcs@)),
                changed ==> optimized(bodies_of(this.tacprogram.funcs@)) == optimized(bodies_of(lw)),
                !changed ==> optimized_program(this.tacprogram.funcs@, lw),
            decreases (if changed { rounds_bound(bodies_of(this.tacprogram.funcs@)) + 1 } else { 0 }),
        {
            let ghost c0 = this.tacprogram.funcs@;
            proof {
                assert forall|k: int| 0 <= k < c0.len() implies 3 * (#[trigger] c0[k]).body@.len() + 3 < u32::MAX by {
                    lemma_bodies_of(c0);
                    assert(bodies_of(c0)[k] == c0[k].body@);
                }
            }
            let c1 = constpropagation::optimize(&mut this.tacprogram);
            let ghost f1 = this.tacprogram.funcs@;
            proof {
                assert(propagated(c0, f1, c1));
                assert forall|k: int| 0 <= k < f1.len() implies 3 * (#[trigger] f1[k]).body@.len() + 3 < u32::MAX by {
                    lemma_propagate_weight(c0[k].body@);
                }
            }
            let c2 = deadtempelimination::optimize(&mut this.tacprogram);
            let ghost f2 = this.tacprogram.funcs@;
            proof {
                assert(eliminated(f1, f2, c2));
                assert forall|k: int| 0 <= k < f2.len() implies 3 * (#[trigger] f2[k]).body@.len() + 3 < u32::MAX by {
                    lemma_dce_weight(f1[k].body@, f1[k].body@.len());
                }
            }
            let c3 = remaptemp::optimize(&mut this.tacprogram);
            let ghost f3 = this.tacprogram.funcs@;
            proof {
                assert(renumbered(f2, f3, c3));
                lemma_round_program(c0, f1, f2, f3, c1, c2, c3);
            }
            changed = c1 || c2 || c3;
            proof {
                let b0 = bodies_of(c0);
                if changed {
                    lemma_rounds_decrease(b0);
                }
                assert forall|k: int| 0 <= k < f3.len() implies
                    #[trigger] f3[k] == (TacFunction { body: f3[k].body, num_temps: f3[k].num_temps, ..lw[k] }) by {
                    assert(f3[k] == (TacFunction { body: f3[k].body, num_temps: f3[k].num_temps, ..c0[k] }));
                    assert(c0[k] == (TacFunction { body: c0[k].body, num_temps: c0[k].num_temps, ..lw[k] }));
                }
            }
        }
        this.into_tacprogram()
    }
}

} // verus!
