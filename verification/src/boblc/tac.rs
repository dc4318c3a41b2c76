//! Three-address code: the compiler's flat intermediate form.
use vstd::prelude::*;
use super::op::{BinaryOp, UnaryOp};
use super::rast::{FuncId, VarId};
use super::ty::Ty;
use super::op::{binary_op_text, unary_op_text};
use super::archive::literalpool::{push_char_vec, push_chars};
use crate::text::{debug_str, decimal, push_decimal, str_debug, string_of_chars};

verus! {

/// A program in three-address code: its functions.
#[derive(Debug)]
pub struct TacProgram {
    pub funcs: Vec<TacFunction>,
}

/// A temporary, numbered within its function.
#[derive(Debug, Clone, Copy, PartialEq, Eq, Hash, Structural)]
pub struct Temp(pub u32);

/// A jump target, numbered within its function.
#[derive(Debug, Clone, Copy, PartialEq, Eq, Structural)]
pub struct Label(pub u32);

/// One instruction of three-address code.
#[derive(Debug, Clone, PartialEq, Eq)]
pub enum TacInst {
    ConstInt { dst: Temp, val: u16 },
    ConstStr { dst: Temp, val: String },
    Copy { dst: Temp, src: Temp },
    LoadVar { dst: Temp, var: VarId },
    StoreVar { var: VarId, src: Temp },
    Load { dst: Temp, addr: Temp },
    Store { addr: Temp, src: Temp },
    AddrOf { dst: Temp, var: VarId },
    LoadFunc { dst: Temp, func: FuncId },
    BinOp { dst: Temp, op: BinaryOp, lhs: Temp, rhs: Temp },
    UnOp { dst: Temp, op: UnaryOp, src: Temp },
    Param(Temp),
    ParamInt(u16),
    ParamStr(String),
    Call { dst: Option<Temp>, callee: Temp },
    CallDirect { dst: Option<Temp>, callee: FuncId },
    Label(Label),
    Jump(Label),
    JumpIfZero { cond: Temp, target: Label },
    Return(Option<Temp>),
    AsmIn { dst: TacRegister, src: Temp },
    AsmOut { dst: Temp, src: TacRegister },
    AsmRaw { mnemonic: String, args: Vec<TacAsmOperand> },
    Dummy,
}

/// A machine register in three-address code.
#[derive(Debug, Clone, Copy, PartialEq, Eq, Structural)]
pub enum TacRegister {
    R0,
    R1,
    R2,
    R3,
    R4,
    R5,
    R6,
    R7,
}

/// An operand of a raw assembly instruction.
#[derive(Debug, Clone, Copy, PartialEq, Eq, Structural)]
pub enum TacAsmOperand {
    Reg(TacRegister),
    Imm(u16),
}

/// A function in three-address code.
#[derive(Debug)]
pub struct TacFunction {
    pub id: FuncId,
    pub params: Vec<VarId>,
    pub num_temps: u32,
    pub locals: Vec<Ty>,
    pub body: Vec<TacInst>,
}


/// How a temporary is written: `t` and its number.
pub open spec fn temp_text(t: Temp) -> Seq<char> {
    seq!['t'] + decimal(t.0 as nat)
}

/// How a jump target is written: `l` and its number.
pub open spec fn label_text(l: Label) -> Seq<char> {
    seq!['l'] + decimal(l.0 as nat)
}

/// How an optional temporary is written, the way `Debug` shows an `Option`.
pub open spec fn opt_temp_text(o: Option<Temp>) -> Seq<char> {
    match o {
        Some(t) => "Some"@ + seq!['\x28'] + temp_text(t) + seq!['\x29'],
        None => "None"@,
    }
}

/// How a register is written: its name.
pub open spec fn reg_text(r: TacRegister) -> Seq<char> {
    match r {
        TacRegister::R0 => "R0"@,
        TacRegister::R1 => "R1"@,
        TacRegister::R2 => "R2"@,
        TacRegister::R3 => "R3"@,
        TacRegister::R4 => "R4"@,
        TacRegister::R5 => "R5"@,
        TacRegister::R6 => "R6"@,
        TacRegister::R7 => "R7"@,
    }
}

/// How an assembly operand is written: a register's name or a number.
pub open spec fn asm_operand_text(o: TacAsmOperand) -> Seq<char> {
    match o {
        TacAsmOperand::Reg(r) => reg_text(r),
        TacAsmOperand::Imm(v) => decimal(v as nat),
    }
}

/// Assembly operands, separated by commas and spaces.
pub open spec fn asm_operand_items(os: Seq<TacAsmOperand>) -> Seq<char>
    decreases os.len(),
{
    if os.len() == 0 {
        Seq::empty()
    } else if os.len() == 1 {
        asm_operand_text(os[0])
    } else {
        asm_operand_items(os.drop_last()) + seq![',', ' '] + asm_operand_text(os.last())
    }
}

/// How an instruction is written: indented by four spaces, but for a label.
pub open spec fn inst_text(i: TacInst) -> Seq<char> {
    let ind = seq![' ', ' ', ' ', ' '];
    let eq = seq![' ', '=', ' '];
    match i {
        TacInst::ConstInt { dst, val } => ind + temp_text(dst) + eq + decimal(val as nat),
        TacInst::ConstStr { dst, val } => ind + temp_text(dst) + eq + str_debug(val@),
        TacInst::Copy { dst, src } => ind + temp_text(dst) + eq + temp_text(src),
        TacInst::LoadVar { dst, var } => ind + temp_text(dst) + eq + seq!['v'] + decimal(var.0 as nat),
        TacInst::StoreVar { var, src } => ind + seq!['v'] + decimal(var.0 as nat) + eq + temp_text(src),
        TacInst::Load { dst, addr } => ind + temp_text(dst) + eq + seq!['*'] + temp_text(addr),
        TacInst::Store { addr, src } => ind + seq!['*'] + temp_text(addr) + eq + temp_text(src),
        TacInst::AddrOf { dst, var } =>
            ind + temp_text(dst) + eq + seq!['&'] + "VarId"@ + seq!['\x28'] + decimal(var.0 as nat) + seq!['\x29'],
        TacInst::LoadFunc { dst, func } => ind + temp_text(dst) + eq + seq!['f'] + decimal(func.0 as nat),
        TacInst::BinOp { dst, op, lhs, rhs } =>
            ind + temp_text(dst) + eq + temp_text(lhs) + seq![' '] + binary_op_text(op) + seq![' '] + temp_text(rhs),
        TacInst::UnOp { dst, op, src } => ind + temp_text(dst) + eq + unary_op_text(op) + temp_text(src),
        TacInst::Param(t) => ind + "param "@ + temp_text(t),
        TacInst::ParamInt(v) => ind + "param "@ + decimal(v as nat),
        TacInst::ParamStr(s) => ind + "param "@ + str_debug(s@),
        TacInst::Call { dst, callee } => ind + opt_temp_text(dst) + eq + "call "@ + temp_text(callee),
        TacInst::CallDirect { dst, callee } => ind + opt_temp_text(dst) + eq + "call f"@ + decimal(callee.0 as nat),
        TacInst::Label(l) => label_text(l) + seq![':'],
        TacInst::Jump(l) => ind + "jump "@ + label_text(l),
        TacInst::JumpIfZero { cond, target } =>
            ind + "jump "@ + label_text(target) + " if "@ + temp_text(cond) + " == 0"@,
        TacInst::Return(ret) => ind + "return "@ + match ret {
            Some(t) => "Some"@ + seq!['\x28'] + str_debug(temp_text(t)) + seq!['\x29'],
            None => "None"@,
        },
        TacInst::AsmIn { dst, src } => ind + reg_text(dst) + eq + temp_text(src),
        TacInst::AsmOut { dst, src } => ind + temp_text(dst) + eq + reg_text(src),
        TacInst::AsmRaw { mnemonic, args } =>
            ind + mnemonic@ + seq![' ', '\x5b'] + asm_operand_items(args@) + seq!['\x5d'],
        TacInst::Dummy => ind + "dummy"@,
    }
}

/// Instructions, each on a line of its own after four more spaces.
pub open spec fn insts_text(is: Seq<TacInst>) -> Seq<char>
    decreases is.len(),
{
    if is.len() == 0 {
        Seq::empty()
    } else {
        insts_text(is.drop_last()) + seq![' ', ' ', ' ', ' '] + inst_text(is.last()) + seq!['\n']
    }
}

/// How a function is written: its number, then its instructions in braces.
pub open spec fn function_text(f: TacFunction) -> Seq<char> {
    seq!['f'] + decimal(f.id.0 as nat) + seq![' ', '\x7b', '\n'] + insts_text(f.body@) + seq!['\x7d', '\n']
}

/// How a program is written: each function, then an empty line.
pub open spec fn functions_text(fs: Seq<TacFunction>) -> Seq<char>
    decreases fs.len(),
{
    if fs.len() == 0 {
        Seq::empty()
    } else {
        functions_text(fs.drop_last()) + function_text(fs.last()) + seq!['\n']
    }
}

/// Appends how a temporary is written.
fn push_temp(buf: &mut Vec<char>, t: Temp)
    ensures
        final(buf)@ == old(buf)@ + temp_text(t),
{
    buf.push('t');
    push_decimal(buf, t.0 as u64);
    assert(buf@ =~= old(buf)@ + temp_text(t));
}

/// Appends how a jump target is written.
fn push_label(buf: &mut Vec<char>, l: Label)
    ensures
        final(buf)@ == old(buf)@ + label_text(l),
{
    buf.push('l');
    push_decimal(buf, l.0 as u64);
    assert(buf@ =~= old(buf)@ + label_text(l));
}

/// Appends how an optional temporary is written.
fn push_opt_temp(buf: &mut Vec<char>, o: Option<Temp>)
    ensures
        final(buf)@ == old(buf)@ + opt_temp_text(o),
{
    match o {
        Some(t) => {
            push_chars(buf, "Some");
            buf.push('\x28');
            push_temp(buf, t);
            buf.push('\x29');
        },
        None => push_chars(buf, "None"),
    }
    assert(buf@ =~= old(buf)@ + opt_temp_text(o));
}

/// Appends how a register is written.
fn push_reg(buf: &mut Vec<char>, r: TacRegister)
    ensures
        final(buf)@ == old(buf)@ + reg_text(r),
{
    match r {
        TacRegister::R0 => push_chars(buf, "R0"),
        TacRegister::R1 => push_chars(buf, "R1"),
        TacRegister::R2 => push_chars(buf, "R2"),
        TacRegister::R3 => push_chars(buf, "R3"),
        TacRegister::R4 => push_chars(buf, "R4"),
        TacRegister::R5 => push_chars(buf, "R5"),
        TacRegister::R6 => push_chars(buf, "R6"),
        TacRegister::R7 => push_chars(buf, "R7"),
    }
}

/// Appends assembly operands, separated by commas and spaces.
fn push_asm_operands(buf: &mut Vec<char>, os: &Vec<TacAsmOperand>)
    ensures
        final(buf)@ == old(buf)@ + asm_operand_items(os@),
{
    let ghost b0 = buf@;
    let mut k: usize = 0;
    assert(os@.take(0) =~= Seq::<TacAsmOperand>::empty());
    while k < os.len()
        invariant
            k <= os@.len(),
            buf@ == b0 + asm_operand_items(os@.take(k as int)),
        decreases os@.len() - k,
    {
        if k > 0 {
            buf.push(',');
            buf.push(' ');
        }
        let ghost before = buf@;
        match os[k] {
            TacAsmOperand::Reg(r) => push_reg(buf, r),
            TacAsmOperand::Imm(v) => push_decimal(buf, v as u64),
        }
        proof {
            let t = os@.take(k + 1);
            assert(t.drop_last() =~= os@.take(k as int));
            assert(t.last() == os@[k as int]);
            assert(buf@ =~= b0 + asm_operand_items(t));
        }
        k += 1;
    }
    assert(os@.take(os@.len() as int) =~= os@);
}

impl TacInst {
    /// How the instruction is written: indented by four spaces, but for a label.
    pub fn to_text(&self) -> (s: String)
        ensures
            s@ == inst_text(*self),
    {
        let mut buf: Vec<char> = Vec::new();
        if !matches!(self, TacInst::Label(_)) {
            push_chars(&mut buf, "    ");
        }
        match self {
            TacInst::ConstInt { dst, val } => {
                push_temp(&mut buf, *dst);
                push_chars(&mut buf, " = ");
                push_decimal(&mut buf, *val as u64);
            },
            TacInst::ConstStr { dst, val } => {
                push_temp(&mut buf, *dst);
                push_chars(&mut buf, " = ");
                let d = debug_str(val.as_str());
                push_chars(&mut buf, d.as_str());
            },
            TacInst::Copy { dst, src } => {
                push_temp(&mut buf, *dst);
                push_chars(&mut buf, " = ");
                push_temp(&mut buf, *src);
            },
            TacInst::LoadVar { dst, var } => {
                push_temp(&mut buf, *dst);
                push_chars(&mut buf, " = v");
                push_decimal(&mut buf, var.0 as u64);
            },
            TacInst::StoreVar { var, src } => {
                buf.push('v');
                push_decimal(&mut buf, var.0 as u64);
                push_chars(&mut buf, " = ");
                push_temp(&mut buf, *src);
            },
            TacInst::Load { dst, addr } => {
                push_temp(&mut buf, *dst);
                push_chars(&mut buf, " = *");
                push_temp(&mut buf, *addr);
            },
            TacInst::Store { addr, src } => {
                buf.push('*');
                push_temp(&mut buf, *addr);
                push_chars(&mut buf, " = ");
                push_temp(&mut buf, *src);
            },
            TacInst::AddrOf { dst, var } => {
                push_temp(&mut buf, *dst);
                push_chars(&mut buf, " = &VarId");
                buf.push('\x28');
                push_decimal(&mut buf, var.0 as u64);
                buf.push('\x29');
            },
            TacInst::LoadFunc { dst, func } => {
                push_temp(&mut buf, *dst);
                push_chars(&mut buf, " = f");
                push_decimal(&mut buf, func.0 as u64);
            },
            TacInst::BinOp { dst, op, lhs, rhs } => {
                push_temp(&mut buf, *dst);
                push_chars(&mut buf, " = ");
                push_temp(&mut buf, *lhs);
                buf.push(' ');
                push_chars(&mut buf, op.to_text());
                buf.push(' ');
                push_temp(&mut buf, *rhs);
            },
            TacInst::UnOp { dst, op, src } => {
                push_temp(&mut buf, *dst);
                push_chars(&mut buf, " = ");
                push_chars(&mut buf, op.to_text());
                push_temp(&mut buf, *src);
            },
            TacInst::Param(t) => {
                push_chars(&mut buf, "param ");
                push_temp(&mut buf, *t);
            },
            TacInst::ParamInt(v) => {
                push_chars(&mut buf, "param ");
                push_decimal(&mut buf, *v as u64);
            },
            TacInst::ParamStr(s) => {
                push_chars(&mut buf, "param ");
                let d = debug_str(s.as_str());
                push_chars(&mut buf, d.as_str());
            },
            TacInst::Call { dst, callee } => {
                push_opt_temp(&mut buf, *dst);
                push_chars(&mut buf, " = call ");
                push_temp(&mut buf, *callee);
            },
            TacInst::CallDirect { dst, callee } => {
                push_opt_temp(&mut buf, *dst);
                push_chars(&mut buf, " = call f");
                push_decimal(&mut buf, callee.0 as u64);
            },
            TacInst::Label(l) => {
                push_label(&mut buf, *l);
                buf.push(':');
            },
            TacInst::Jump(l) => {
                push_chars(&mut buf, "jump ");
                push_label(&mut buf, *l);
            },
            TacInst::JumpIfZero { cond, target } => {
                push_chars(&mut buf, "jump ");
                push_label(&mut buf, *target);
                push_chars(&mut buf, " if ");
                push_temp(&mut buf, *cond);
                push_chars(&mut buf, " == 0");
            },
            TacInst::Return(ret) => {
                push_chars(&mut buf, "return ");
                match ret {
                    Some(t) => {
                        push_chars(&mut buf, "Some");
                        buf.push('\x28');
                        let mut tb: Vec<char> = Vec::new();
                        push_temp(&mut tb, *t);
                        let ts = string_of_chars(tb.as_slice());
                        let d = debug_str(ts.as_str());
                        push_chars(&mut buf, d.as_str());
                        buf.push('\x29');
                    },
                    None => push_chars(&mut buf, "None"),
                }
            },
            TacInst::AsmIn { dst, src } => {
                push_reg(&mut buf, *dst);
                push_chars(&mut buf, " = ");
                push_temp(&mut buf, *src);
            },
            TacInst::AsmOut { dst, src } => {
                push_temp(&mut buf, *dst);
                push_chars(&mut buf, " = ");
                push_reg(&mut buf, *src);
            },
            TacInst::AsmRaw { mnemonic, args } => {
                push_chars(&mut buf, mnemonic.as_str());
                buf.push(' ');
                buf.push('\x5b');
                push_asm_operands(&mut buf, args);
                buf.push('\x5d');
            },
            TacInst::Dummy => push_chars(&mut buf, "dummy"),
        }
        proof {
            reveal_strlit("    ");
            reveal_strlit(" = ");
            reveal_strlit(" = v");
            reveal_strlit(" = *");
            reveal_strlit(" = &VarId");
            reveal_strlit(" = f");
            reveal_strlit(" = call ");
            reveal_strlit(" = call f");
            reveal_strlit("param ");
            reveal_strlit("call ");
            reveal_strlit("call f");
            reveal_strlit("jump ");
            reveal_strlit(" if ");
            reveal_strlit(" == 0");
            reveal_strlit("return ");
            reveal_strlit("Some");
            reveal_strlit("None");
            reveal_strlit("VarId");
            reveal_strlit("dummy");
        }
        let s = string_of_chars(buf.as_slice());
        assert(s@ =~= inst_text(*self));
        s
    }
}

impl TacFunction {
    /// How the function is written: its number, then its instructions in braces.
    pub fn to_text(&self) -> (s: String)
        ensures
            s@ == function_text(*self),
    {
        let mut buf: Vec<char> = Vec::new();
        buf.push('f');
        push_decimal(&mut buf, self.id.0 as u64);
        buf.push(' ');
        buf.push('\x7b');
        buf.push('\n');
        let ghost b0 = buf@;
        let mut k: usize = 0;
        assert(self.body@.take(0) =~= Seq::<TacInst>::empty());
        while k < self.body.len()
            invariant
                k <= self.body@.len(),
                buf@ == b0 + insts_text(self.body@.take(k as int)),
            decreases self.body@.len() - k,
        {
            push_chars(&mut buf, "    ");
            let t = self.body[k].to_text();
            push_chars(&mut buf, t.as_str());
            buf.push('\n');
            proof {
                reveal_strlit("    ");
                let is = self.body@.take(k + 1);
                assert(is.drop_last() =~= self.body@.take(k as int));
                assert(is.last() == self.body@[k as int]);
                assert(buf@ =~= b0 + insts_text(is));
            }
            k += 1;
        }
        assert(self.body@.take(self.body@.len() as int) =~= self.body@);
        buf.push('\x7d');
        buf.push('\n');
        let s = string_of_chars(buf.as_slice());
        assert(s@ =~= function_text(*self));
        s
    }
}

impl TacProgram {
    /// How the program is written: each function, then an empty line.
    pub fn to_text(&self) -> (s: String)
        ensures
            s@ == functions_text(self.funcs@),
    {
        let mut buf: Vec<char> = Vec::new();
        let mut k: usize = 0;
        assert(self.funcs@.take(0) =~= Seq::<TacFunction>::empty());
        while k < self.funcs.len()
            invariant
                k <= self.funcs@.len(),
                buf@ == functions_text(self.funcs@.take(k as int)),
            decreases self.funcs@.len() - k,
        {
            let t = self.funcs[k].to_text();
            push_chars(&mut buf, t.as_str());
            buf.push('\n');
            proof {
                let fs = self.funcs@.take(k + 1);
                assert(fs.drop_last() =~= self.funcs@.take(k as int));
                assert(fs.last() == self.funcs@[k as int]);
                assert(buf@ =~= functions_text(fs));
            }
            k += 1;
        }
        assert(self.funcs@.take(self.funcs@.len() as int) =~= self.funcs@);
        string_of_chars(buf.as_slice())
    }
}

/// Takes the functions out of `program`, stacked last first, so that popping
/// them gives them in order.
pub(crate) fn take_funcs_reversed(program: &mut TacProgram) -> (rev: Vec<TacFunction>)
    ensures
        rev@.reverse() == old(program).funcs@,
        final(program).funcs@.len() == 0,
{
    let ghost fs0 = program.funcs@;
    let mut funcs: Vec<TacFunction> = Vec::new();
    std::mem::swap(&mut funcs, &mut program.funcs);
    let mut rev: Vec<TacFunction> = Vec::new();
    assert(funcs@ + rev@.reverse() =~= fs0);
    while funcs.len() > 0
        invariant
            funcs@ + rev@.reverse() == fs0,
        decreases funcs@.len(),
    {
        let ghost f0 = funcs@;
        let ghost r0 = rev@;
        let f = funcs.pop().unwrap();
        rev.push(f);
        assert(funcs@ + rev@.reverse() =~= f0.drop_last() + (r0.push(f0.last())).reverse());
        assert(f0.drop_last() + (r0.push(f0.last())).reverse() =~= f0 + r0.reverse());
    }
    assert(rev@.reverse() =~= fs0);
    rev
}

} // verus!
