use bobtools::boblc::codegen::Codegen;
use bobtools::boblc::op::BinaryOp;
use bobtools::boblc::rast::{FuncId, VarId};
use bobtools::boblc::tac::{Label, TacAsmOperand, TacFunction, TacInst, TacProgram, TacRegister, Temp};
use bobtools::boblc::ty::Ty;

fn generate(funcs: Vec<TacFunction>, names: &[(u32, &str)]) -> String {
    let labels = names.iter().map(|(id, n)| (FuncId(*id), n.to_string())).collect();
    Codegen::new(labels).generate(&TacProgram { funcs })
}

#[test]
fn codegen_function_with_runtime_call() {
    let f = TacFunction {
        id: FuncId(0),
        params: vec![VarId(0)],
        num_temps: 2,
        locals: vec![Ty::Int, Ty::Int],
        body: vec![
            TacInst::ConstInt { dst: Temp(0), val: 5 },
            TacInst::LoadVar { dst: Temp(1), var: VarId(0) },
            TacInst::BinOp { dst: Temp(0), op: BinaryOp::Mul, lhs: Temp(0), rhs: Temp(1) },
            TacInst::Return(Some(Temp(0))),
        ],
    };
    let expected = [
        ".global main\n",
        "main:\n",
        "\tstr r5, r4, 0\n",
        "\tstr r7, r4, 1\n",
        "\tadd r4, 2\n",
        "\tadd r5, r6, -1\n",
        "\tadd r6, 3\n",
        "\tld r0, __lint0\n",
        "\tstr r0, r5, 2\n",
        "\tldr r0, r5, 0\n",
        "\tstr r0, r5, 3\n",
        "\tldr r0, r5, 2\n",
        "\tstr r0, r6, 0\n",
        "\tadd r6, 1\n",
        "\tldr r0, r5, 3\n",
        "\tstr r0, r6, 0\n",
        "\tadd r6, 1\n",
        "\tld r0, __lfn1\n",
        "\tjsr r0\n",
        "\tstr r0, r5, 2\n",
        "\tldr r0, r5, 2\n",
        "\tadd r6, -4\n",
        "\tadd r4, -2\n",
        "\tldr r7, r4, 1\n",
        "\tldr r5, r4, 0\n",
        "\tret\n",
        "\tadd r6, -4\n",
        "\tadd r4, -2\n",
        "\tldr r7, r4, 1\n",
        "\tldr r5, r4, 0\n",
        "\tret\n",
        "\tbr __after_pool0\n",
        "__lint0: .fill 5\n",
        "__lfn1: .fill __rt_mul\n",
        "__after_pool0:\n",
    ]
    .concat();
    assert_eq!(generate(vec![f], &[(0, "main")]), expected);
}

#[test]
fn codegen_labels_jumps_strings_and_raw_instructions() {
    let f = TacFunction {
        id: FuncId(3),
        params: vec![],
        num_temps: 1,
        locals: vec![],
        body: vec![
            TacInst::Label(Label(0)),
            TacInst::ConstStr { dst: Temp(0), val: "a\"b\n".to_string() },
            TacInst::JumpIfZero { cond: Temp(0), target: Label(1) },
            TacInst::AsmRaw {
                mnemonic: "add".to_string(),
                args: vec![TacAsmOperand::Reg(TacRegister::R1), TacAsmOperand::Imm(7)],
            },
            TacInst::CallDirect { dst: None, callee: FuncId(3) },
            TacInst::Jump(Label(0)),
            TacInst::Label(Label(1)),
        ],
    };
    let out = generate(vec![f], &[(3, "loop")]);
    let expected = [
        ".global loop\n",
        "loop:\n",
        "\tstr r5, r4, 0\n",
        "\tstr r7, r4, 1\n",
        "\tadd r4, 2\n",
        "\tadd r5, r6, -0\n",
        "\tadd r6, 1\n",
        "__3L0:\n",
        "\tlea r0, __lstr0\n",
        "\tstr r0, r5, 0\n",
        "\tldr r0, r5, 0\n",
        "\tbrz __3L1\n",
        "\tadd r1 7\n",
        "\tld r0, __lfn1\n",
        "\tjsr r0\n",
        "\tbr __3L0\n",
        "__3L1:\n",
        "\tadd r6, -1\n",
        "\tadd r4, -2\n",
        "\tldr r7, r4, 1\n",
        "\tldr r5, r4, 0\n",
        "\tret\n",
        "\tbr __after_pool0\n",
        "__lstr0: .string \"a\\\"b\\n\"\n",
        "__lfn1: .fill loop\n",
        "__after_pool0:\n",
    ]
    .concat();
    assert_eq!(out, expected);
}

#[test]
fn codegen_splits_a_long_body_into_chunks() {
    let body: Vec<TacInst> = (0..120).map(|_| TacInst::Copy { dst: Temp(0), src: Temp(1) }).collect();
    let f = TacFunction { id: FuncId(0), params: vec![], num_temps: 2, locals: vec![], body };
    let out = generate(vec![f], &[(0, "f")]);
    assert_eq!(out.matches("__after_pool0:\n").count(), 1);
    assert_eq!(out.matches("__after_pool1:\n").count(), 1);
    assert!(!out.contains("__after_pool2"));
    // The first chunk ends once its code reaches 200 words, checked before each instruction.
    let first = out.split("\tbr __after_pool0\n").next().unwrap();
    assert_eq!(first.matches('\t').count(), 201);
}

#[test]
fn codegen_numbers_chunks_across_functions() {
    let f = |id: u32| TacFunction { id: FuncId(id), params: vec![], num_temps: 0, locals: vec![], body: vec![] };
    let out = generate(vec![f(0), f(1)], &[(0, "a"), (1, "b")]);
    assert!(out.starts_with(".global a\na:\n"));
    assert!(out.contains("__after_pool0:\n.global b\nb:\n"));
    assert!(out.ends_with("\tbr __after_pool1\n__after_pool1:\n"));
}
