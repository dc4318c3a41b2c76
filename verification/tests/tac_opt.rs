use bobtools::boblc::op::BinaryOp;
use bobtools::boblc::opt::{constpropagation, deadtempelimination, remaptemp};
use bobtools::boblc::rast::FuncId;
use bobtools::boblc::tac::{TacFunction, TacInst, TacProgram, Temp};

fn program(body: Vec<TacInst>) -> TacProgram {
    TacProgram { funcs: vec![TacFunction { id: FuncId(0), params: vec![], num_temps: 99, locals: vec![], body }] }
}

#[test]
fn constants_fold_into_params_and_calls() {
    let mut p = program(vec![
        TacInst::LoadFunc { dst: Temp(0), func: FuncId(1) },
        TacInst::ConstInt { dst: Temp(1), val: 5 },
        TacInst::Param(Temp(1)),
        TacInst::ConstStr { dst: Temp(3), val: "s".to_string() },
        TacInst::Param(Temp(3)),
        TacInst::Call { dst: Some(Temp(2)), callee: Temp(0) },
        TacInst::Return(Some(Temp(2))),
    ]);
    assert!(constpropagation::optimize(&mut p));
    assert_eq!(
        p.funcs[0].body,
        vec![
            TacInst::ParamInt(5),
            TacInst::ParamStr("s".to_string()),
            TacInst::CallDirect { dst: Some(Temp(2)), callee: FuncId(1) },
            TacInst::Return(Some(Temp(2))),
        ]
    );
    assert!(!constpropagation::optimize(&mut p));
}

#[test]
fn overwritten_temp_is_not_folded() {
    let mut p = program(vec![
        TacInst::ConstInt { dst: Temp(1), val: 5 },
        TacInst::LoadVar { dst: Temp(1), var: bobtools::boblc::rast::VarId(0) },
        TacInst::Param(Temp(1)),
    ]);
    assert!(!constpropagation::optimize(&mut p));
    assert_eq!(p.funcs[0].body.len(), 3);
}

#[test]
fn dead_temps_are_removed() {
    let mut p = program(vec![
        TacInst::ConstInt { dst: Temp(0), val: 1 },
        TacInst::ConstInt { dst: Temp(1), val: 2 },
        TacInst::Return(Some(Temp(1))),
        TacInst::Dummy,
        TacInst::Call { dst: Some(Temp(5)), callee: Temp(1) },
    ]);
    assert!(deadtempelimination::optimize(&mut p));
    assert_eq!(
        p.funcs[0].body,
        vec![
            TacInst::ConstInt { dst: Temp(1), val: 2 },
            TacInst::Return(Some(Temp(1))),
            TacInst::Call { dst: None, callee: Temp(1) },
        ]
    );
    assert!(!deadtempelimination::optimize(&mut p));
}

#[test]
fn temps_are_renumbered_densely() {
    let mut p = program(vec![
        TacInst::ConstInt { dst: Temp(7), val: 1 },
        TacInst::BinOp { dst: Temp(9), op: BinaryOp::Add, lhs: Temp(7), rhs: Temp(7) },
        TacInst::Return(Some(Temp(9))),
    ]);
    assert!(remaptemp::optimize(&mut p));
    assert_eq!(p.funcs[0].num_temps, 2);
    assert_eq!(
        p.funcs[0].body,
        vec![
            TacInst::ConstInt { dst: Temp(0), val: 1 },
            TacInst::BinOp { dst: Temp(1), op: BinaryOp::Add, lhs: Temp(0), rhs: Temp(0) },
            TacInst::Return(Some(Temp(1))),
        ]
    );
    assert!(!remaptemp::optimize(&mut p));
}

#[test]
fn renumbering_twice_keeps_the_count() {
    let mut p = program(vec![
        TacInst::Copy { dst: Temp(4), src: Temp(8) },
        TacInst::Store { addr: Temp(8), src: Temp(4) },
        TacInst::Return(Some(Temp(3))),
    ]);
    assert!(remaptemp::optimize(&mut p));
    assert_eq!(p.funcs[0].num_temps, 3);
    assert_eq!(
        p.funcs[0].body,
        vec![
            TacInst::Copy { dst: Temp(0), src: Temp(1) },
            TacInst::Store { addr: Temp(1), src: Temp(0) },
            TacInst::Return(Some(Temp(2))),
        ]
    );
    assert!(!remaptemp::optimize(&mut p));
    assert_eq!(p.funcs[0].num_temps, 3);
}
