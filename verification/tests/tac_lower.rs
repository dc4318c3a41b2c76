use bobtools::boblc::op::BinaryOp;
use bobtools::boblc::rast::{
    FuncId, ModuleId, RAsmItem, RAsmOperand, RExpr, RExprKind, RFunction, RLValue, RModule, RProgram,
    RRegister, RStmt, VarId,
};
use bobtools::boblc::tac::{Label, TacAsmOperand, TacInst, TacProgram, TacRegister, Temp};
use bobtools::boblc::taclower::Lowerer;
use bobtools::boblc::opt::{constpropagation, deadtempelimination, remaptemp};
use bobtools::boblc::ty::Ty;

fn int_expr(kind: RExprKind) -> RExpr {
    RExpr { kind, ty: Ty::Int }
}

fn var(v: u32) -> RExpr {
    int_expr(RExprKind::LValue(RLValue::Var(VarId(v))))
}

fn lower(functions: Vec<RFunction>) -> TacProgram {
    let program = RProgram { modules: vec![RModule { id: ModuleId(0), functions }] };
    Lowerer::new(program).lower()
}

fn function(id: u32, params: u32, locals: u32, body: Vec<RStmt>) -> RFunction {
    RFunction {
        id: FuncId(id),
        module: ModuleId(0),
        name: format!("f{id}"),
        params: (0..params).map(|p| (VarId(p), Ty::Int)).collect(),
        ret: Ty::Int,
        locals: (0..locals).map(|_| Ty::Int).collect(),
        body: RStmt::Block(body),
    }
}

#[test]
fn lowering_keeps_code_that_nothing_can_fold() {
    let body = vec![
        RStmt::Let {
            var: VarId(1),
            val: Some(int_expr(RExprKind::Binary {
                left: Box::new(int_expr(RExprKind::IntLit(2))),
                op: BinaryOp::Add,
                right: Box::new(var(0)),
            })),
        },
        RStmt::Return(Some(var(1))),
    ];
    let p = lower(vec![function(0, 1, 2, body)]);
    assert_eq!(p.funcs.len(), 1);
    let f = &p.funcs[0];
    assert_eq!(f.params, vec![VarId(0)]);
    assert_eq!(f.num_temps, 4);
    assert_eq!(
        f.body,
        vec![
            TacInst::ConstInt { dst: Temp(0), val: 2 },
            TacInst::LoadVar { dst: Temp(1), var: VarId(0) },
            TacInst::BinOp { dst: Temp(2), op: BinaryOp::Add, lhs: Temp(0), rhs: Temp(1) },
            TacInst::StoreVar { var: VarId(1), src: Temp(2) },
            TacInst::LoadVar { dst: Temp(3), var: VarId(1) },
            TacInst::Return(Some(Temp(3))),
        ]
    );
}

#[test]
fn lowering_folds_direct_calls_and_constant_arguments() {
    let call = int_expr(RExprKind::Call {
        callee: Box::new(int_expr(RExprKind::Function(FuncId(7)))),
        args: vec![int_expr(RExprKind::IntLit(5)), int_expr(RExprKind::StrLit("hi".to_string()))],
    });
    let p = lower(vec![function(0, 0, 0, vec![RStmt::Expr(call)])]);
    let f = &p.funcs[0];
    assert_eq!(f.num_temps, 0);
    assert_eq!(
        f.body,
        vec![
            TacInst::ParamInt(5),
            TacInst::ParamStr("hi".to_string()),
            TacInst::CallDirect { dst: None, callee: FuncId(7) },
        ]
    );
}

#[test]
fn lowering_while_and_if_uses_labels_in_order() {
    let body = vec![
        RStmt::While {
            cond: var(0),
            body: Box::new(RStmt::If {
                cond: var(0),
                then_branch: Box::new(RStmt::Expr(int_expr(RExprKind::Assign {
                    target: RLValue::Var(VarId(0)),
                    val: Box::new(int_expr(RExprKind::IntLit(0))),
                }))),
                else_branch: None,
            }),
        },
        RStmt::Return(None),
    ];
    let p = lower(vec![function(0, 1, 1, body)]);
    let f = &p.funcs[0];
    assert_eq!(
        f.body,
        vec![
            TacInst::Label(Label(0)),
            TacInst::LoadVar { dst: Temp(0), var: VarId(0) },
            TacInst::JumpIfZero { cond: Temp(0), target: Label(1) },
            TacInst::LoadVar { dst: Temp(1), var: VarId(0) },
            TacInst::JumpIfZero { cond: Temp(1), target: Label(2) },
            TacInst::ConstInt { dst: Temp(2), val: 0 },
            TacInst::StoreVar { var: VarId(0), src: Temp(2) },
            TacInst::Label(Label(2)),
            TacInst::Jump(Label(0)),
            TacInst::Label(Label(1)),
            TacInst::Return(None),
        ]
    );
    assert_eq!(f.num_temps, 3);
}

#[test]
fn lowering_inline_assembly() {
    let body = vec![RStmt::Asm(vec![
        RAsmItem::In { reg: RRegister::R1, expr: int_expr(RExprKind::CharLit('A')) },
        RAsmItem::Instr {
            mnemonic: "trap".to_string(),
            args: vec![RAsmOperand::Imm(33), RAsmOperand::Reg(RRegister::R1)],
        },
        RAsmItem::Out { reg: RRegister::R0, lval: RLValue::Var(VarId(0)) },
    ])];
    let p = lower(vec![function(0, 0, 1, body)]);
    let f = &p.funcs[0];
    assert_eq!(
        f.body,
        vec![
            TacInst::ConstInt { dst: Temp(0), val: 65 },
            TacInst::AsmIn { dst: TacRegister::R1, src: Temp(0) },
            TacInst::AsmRaw {
                mnemonic: "trap".to_string(),
                args: vec![TacAsmOperand::Imm(33), TacAsmOperand::Reg(TacRegister::R1)],
            },
            TacInst::AsmOut { dst: Temp(1), src: TacRegister::R0 },
            TacInst::StoreVar { var: VarId(0), src: Temp(1) },
        ]
    );
}

#[test]
fn lowering_keeps_function_order_across_modules() {
    let program = RProgram {
        modules: vec![
            RModule { id: ModuleId(0), functions: vec![function(3, 0, 0, vec![])] },
            RModule { id: ModuleId(1), functions: vec![function(1, 0, 0, vec![]), function(2, 0, 0, vec![])] },
        ],
    };
    let p = Lowerer::new(program).lower();
    let ids: Vec<u32> = p.funcs.iter().map(|f| f.id.0).collect();
    assert_eq!(ids, vec![3, 1, 2]);
}

#[test]
fn lowering_leaves_a_fixpoint_of_the_passes() {
    let call = int_expr(RExprKind::Call {
        callee: Box::new(int_expr(RExprKind::Function(FuncId(7)))),
        args: vec![int_expr(RExprKind::Binary {
            left: Box::new(var(0)),
            op: BinaryOp::Add,
            right: Box::new(int_expr(RExprKind::IntLit(5))),
        })],
    });
    let mut p = lower(vec![function(0, 1, 0, vec![RStmt::Expr(call), RStmt::Return(Some(var(0)))])]);
    let n = p.funcs[0].num_temps;
    assert!(!constpropagation::optimize(&mut p));
    assert!(!deadtempelimination::optimize(&mut p));
    assert!(!remaptemp::optimize(&mut p));
    assert_eq!(p.funcs[0].num_temps, n);
}
