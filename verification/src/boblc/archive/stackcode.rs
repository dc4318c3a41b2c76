//! What the code of the archive stack words does on the Bob-16 machine: the
//! code is read as loads, stores and additions relative to the stack
//! registers, and those are run through the machine's semantics.
use vstd::prelude::*;
use crate::bob16::inst::Instruction;
use crate::bob16::machine::{add16, execute_spec, word_at, MachineModel};
use super::codegen::word_code;
use super::literalpool::PoolModel;
use super::parse::WordModel;

verus! {

/// A load, store or addition with a register base and a small offset, as
/// the stack words use them.
pub enum StackInstr {
    /// `ldr rDST, rBASE, OFF`
    Ldr { dst: u8, base: u8, off: i16 },
    /// `str rSRC, rBASE, OFF`
    Str { src: u8, base: u8, off: i16 },
    /// `add rDST, OFF`
    Add { dst: u8, off: i8 },
    /// `add rDST, rSRC`
    AddReg { dst: u8, src: u8 },
    /// `and rDST, rSRC`
    AndReg { dst: u8, src: u8 },
    /// `not rDST`
    Not { dst: u8 },
}

/// The decimal digit `d`, for `d` from 0 to 9.
pub open spec fn digit(d: int) -> char {
    if d == 0 { '0' } else if d == 1 { '1' } else if d == 2 { '2' } else if d == 3 { '3' }
    else if d == 4 { '4' } else if d == 5 { '5' } else if d == 6 { '6' } else if d == 7 { '7' }
    else if d == 8 { '8' } else { '9' }
}

/// A number from -9 to 9 as it is written.
pub open spec fn small_text(v: int) -> Seq<char> {
    if v < 0 { seq!['-', digit(-v)] } else { seq![digit(v)] }
}

/// A register as it is written.
pub open spec fn reg_text(r: u8) -> Seq<char> {
    seq!['r', digit(r as int)]
}

/// How an instruction is written, on a line of its own after a tab.
pub open spec fn stack_instr_text(i: StackInstr) -> Seq<char> {
    match i {
        StackInstr::Ldr { dst, base, off } =>
            seq!['\t', 'l', 'd', 'r', ' '] + reg_text(dst) + seq![',', ' '] + reg_text(base) + seq![',', ' '] + small_text(off as int) + seq!['\n'],
        StackInstr::Str { src, base, off } =>
            seq!['\t', 's', 't', 'r', ' '] + reg_text(src) + seq![',', ' '] + reg_text(base) + seq![',', ' '] + small_text(off as int) + seq!['\n'],
        StackInstr::Add { dst, off } =>
            seq!['\t', 'a', 'd', 'd', ' '] + reg_text(dst) + seq![',', ' '] + small_text(off as int) + seq!['\n'],
        StackInstr::AddReg { dst, src } =>
            seq!['\t', 'a', 'd', 'd', ' '] + reg_text(dst) + seq![',', ' '] + reg_text(src) + seq!['\n'],
        StackInstr::AndReg { dst, src } =>
            seq!['\t', 'a', 'n', 'd', ' '] + reg_text(dst) + seq![',', ' '] + reg_text(src) + seq!['\n'],
        StackInstr::Not { dst } => seq!['\t', 'n', 'o', 't', ' '] + reg_text(dst) + seq!['\n'],
    }
}

/// How a list of instructions is written.
pub open spec fn stack_code_text(prog: Seq<StackInstr>) -> Seq<char>
    decreases prog.len(),
{
    if prog.len() == 0 {
        Seq::empty()
    } else {
        stack_code_text(prog.drop_last()) + stack_instr_text(prog.last())
    }
}

/// The machine instruction that an instruction assembles to.
pub open spec fn machine_instr(i: StackInstr) -> Instruction {
    match i {
        StackInstr::Ldr { dst, base, off } => Instruction::Ldr { dst, base, imm: off },
        StackInstr::Str { src, base, off } => Instruction::Str { src, base, imm: off },
        StackInstr::Add { dst, off } => Instruction::AddIpI { dst, imm: off },
        StackInstr::AddReg { dst, src } => Instruction::AddIpR { dst, src },
        StackInstr::AndReg { dst, src } => Instruction::AndIpR { dst, src },
        StackInstr::Not { dst } => Instruction::NotIp { dst },
    }
}

/// The machine state after running the instructions of `prog` from `m`.
pub open spec fn run_stack_code(m: MachineModel, prog: Seq<StackInstr>) -> MachineModel
    decreases prog.len(),
{
    if prog.len() == 0 {
        m
    } else {
        execute_spec(run_stack_code(m, prog.drop_last()), machine_instr(prog.last()))
    }
}

/// The word `i` places below the top of the data stack in `m`: the stack
/// grows upwards from the address in `r6`, which is one past its top.
pub open spec fn stack_word(m: MachineModel, i: int) -> u16 {
    m.memory[word_at(m.regs[6], -(i + 1))]
}

/// Writing and running a list with one more instruction at its end.
proof fn lemma_push(m: MachineModel, prog: Seq<StackInstr>, i: StackInstr)
    ensures
        stack_code_text(prog.push(i)) == stack_code_text(prog) + stack_instr_text(i),
        run_stack_code(m, prog.push(i)) == execute_spec(run_stack_code(m, prog), machine_instr(i)),
{
    assert(prog.push(i).drop_last() =~= prog);
}

/// The code of `swap`, run on the machine, exchanges the top two words of
/// the data stack and changes no other word of memory, nor the stack
/// pointer.
pub proof fn lemma_swap_code(name: Seq<char>, pool: PoolModel, m: MachineModel)
    requires
        m.regs.len() == 8,
        m.memory.len() == 0x10000,
    ensures
        exists|prog: Seq<StackInstr>| #![trigger stack_code_text(prog)]
            stack_code_text(prog) == word_code(name, WordModel::Swap, pool).0 && {
                let m2 = run_stack_code(m, prog);
                &&& m2.regs[6] == m.regs[6]
                &&& m2.memory == m.memory.update(word_at(m.regs[6], -1), stack_word(m, 1)).update(word_at(m.regs[6], -2), stack_word(m, 0))
            },
{
    let i0 = StackInstr::Ldr { dst: 0, base: 6, off: -1i16 };
    let i1 = StackInstr::Ldr { dst: 1, base: 6, off: -2i16 };
    let i2 = StackInstr::Str { src: 0, base: 6, off: -2i16 };
    let i3 = StackInstr::Str { src: 1, base: 6, off: -1i16 };
    let c0 = Seq::<StackInstr>::empty();
    let c1 = c0.push(i0);
    let c2 = c1.push(i1);
    let c3 = c2.push(i2);
    let prog = c3.push(i3);
    lemma_push(m, c0, i0);
    lemma_push(m, c1, i1);
    lemma_push(m, c2, i2);
    lemma_push(m, c3, i3);
    assert(stack_instr_text(i0) =~= seq!['\t', 'l', 'd', 'r', ' ', 'r', '0', ',', ' ', 'r', '6', ',', ' ', '-', '1', '\n']);
    assert(stack_instr_text(i1) =~= seq!['\t', 'l', 'd', 'r', ' ', 'r', '1', ',', ' ', 'r', '6', ',', ' ', '-', '2', '\n']);
    assert(stack_instr_text(i2) =~= seq!['\t', 's', 't', 'r', ' ', 'r', '0', ',', ' ', 'r', '6', ',', ' ', '-', '2', '\n']);
    assert(stack_instr_text(i3) =~= seq!['\t', 's', 't', 'r', ' ', 'r', '1', ',', ' ', 'r', '6', ',', ' ', '-', '1', '\n']);
    reveal_strlit("\tldr r0, r6, -1\n\tldr r1, r6, -2\n\tstr r0, r6, -2\n\tstr r1, r6, -1\n");
    assert(stack_code_text(prog) =~= word_code(name, WordModel::Swap, pool).0);
    let sp = m.regs[6];
    lemma_offset(sp, -1i16);
    lemma_offset(sp, -2i16);
    let m1 = run_stack_code(m, c1);
    let m2 = run_stack_code(m, c2);
    let m3 = run_stack_code(m, c3);
    let m4 = run_stack_code(m, prog);
    assert(m1.regs[6] == sp && m1.regs[0] == stack_word(m, 0) && m1.memory == m.memory);
    assert(m2.regs[6] == sp && m2.regs[0] == stack_word(m, 0) && m2.regs[1] == stack_word(m, 1) && m2.memory == m.memory);
    assert(m3.regs[6] == sp && m3.regs[1] == stack_word(m, 1));
    assert(m4.memory =~= m.memory.update(word_at(sp, -1), stack_word(m, 1)).update(word_at(sp, -2), stack_word(m, 0)));
}

/// An offset as the machine adds it to a register: wrapping round.
proof fn lemma_offset(sp: u16, k: i16)
    requires
        -9 <= k <= 9,
    ensures
        add16(sp, k as u16) as int == word_at(sp, k as int),
{
    if k < 0 {
        assert(k as u16 == 65536 + k) by (bit_vector)
            requires
                -9 <= k < 0;
    } else {
        assert(k as u16 == k) by (bit_vector)
            requires
                0 <= k <= 9;
    }
}

/// A small offset of an addition, as the machine adds it to a register.
proof fn lemma_offset8(sp: u16, k: i8)
    requires
        -9 <= k <= 9,
    ensures
        add16(sp, k as i16 as u16) as int == word_at(sp, k as int),
{
    lemma_offset(sp, k as i16);
}

/// The code of `drop`, run on the machine, removes the top word of the data stack: the stack pointer moves down one word and memory is unchanged.
pub proof fn lemma_drop_code(name: Seq<char>, pool: PoolModel, m: MachineModel)
    requires
        m.regs.len() == 8,
        m.memory.len() == 0x10000,
    ensures
        exists|prog: Seq<StackInstr>| #![trigger stack_code_text(prog)]
            stack_code_text(prog) == word_code(name, WordModel::Drop, pool).0 && {
                let m2 = run_stack_code(m, prog);
                &&& m2.regs[6] as int == word_at(m.regs[6], -1)
                &&& m2.memory == m.memory
            },
{
    let c0 = Seq::<StackInstr>::empty();
    let i0 = StackInstr::Add { dst: 6, off: -1i8 };
    let c1 = c0.push(i0);
    lemma_push(m, c0, i0);
    assert(stack_instr_text(i0) =~= seq!['\t', 'a', 'd', 'd', ' ', 'r', '6', ',', ' ', '-', '1', '\n']);
    reveal_strlit("\tadd r6, -1\n");
    assert(stack_code_text(c1) =~= word_code(name, WordModel::Drop, pool).0);
    let sp = m.regs[6];
    let rp = m.regs[4];
    lemma_offset8(m.regs[6], -1i8);
    let m0 = run_stack_code(m, c0);
    let m1 = run_stack_code(m, c1);
}

/// The code of `dup`, run on the machine, pushes a copy of the top word of the data stack.
#[verifier::rlimit(40)]
pub proof fn lemma_dup_code(name: Seq<char>, pool: PoolModel, m: MachineModel)
    requires
        m.regs.len() == 8,
        m.memory.len() == 0x10000,
    ensures
        exists|prog: Seq<StackInstr>| #![trigger stack_code_text(prog)]
            stack_code_text(prog) == word_code(name, WordModel::Dup, pool).0 && {
                let m2 = run_stack_code(m, prog);
                &&& m2.regs[6] as int == word_at(m.regs[6], 1)
                &&& m2.memory == m.memory.update(word_at(m.regs[6], 0), stack_word(m, 0))
            },
{
    let c0 = Seq::<StackInstr>::empty();
    let i0 = StackInstr::Ldr { dst: 0, base: 6, off: -1i16 };
    let c1 = c0.push(i0);
    lemma_push(m, c0, i0);
    assert(stack_instr_text(i0) =~= seq!['\t', 'l', 'd', 'r', ' ', 'r', '0', ',', ' ', 'r', '6', ',', ' ', '-', '1', '\n']);
    let i1 = StackInstr::Str { src: 0, base: 6, off: 0i16 };
    let c2 = c1.push(i1);
    lemma_push(m, c1, i1);
    assert(stack_instr_text(i1) =~= seq!['\t', 's', 't', 'r', ' ', 'r', '0', ',', ' ', 'r', '6', ',', ' ', '0', '\n']);
    let i2 = StackInstr::Add { dst: 6, off: 1i8 };
    let c3 = c2.push(i2);
    lemma_push(m, c2, i2);
    assert(stack_instr_text(i2) =~= seq!['\t', 'a', 'd', 'd', ' ', 'r', '6', ',', ' ', '1', '\n']);
    reveal_strlit("\tldr r0, r6, -1\n\tstr r0, r6, 0\n\tadd r6, 1\n");
    assert(stack_code_text(c3) =~= word_code(name, WordModel::Dup, pool).0);
    let sp = m.regs[6];
    let rp = m.regs[4];
    lemma_offset8(m.regs[6], 1i8);
    let m0 = run_stack_code(m, c0);
    let m1 = run_stack_code(m, c1);
    let m2 = run_stack_code(m, c2);
    let m3 = run_stack_code(m, c3);
    lemma_offset(sp, -1i16);
    lemma_offset(sp, 0i16);
    assert(m1.regs[0] == m.memory[word_at(sp, -1)] && m1.memory == m.memory && m1.regs[6] == sp);
    assert(m2.memory =~= m.memory.update(word_at(sp, 0), m.memory[word_at(sp, -1)]));
    assert(m2.regs[6] == sp && m2.regs[0] == m.memory[word_at(sp, -1)]);
    assert(m3.memory == m.memory.update(word_at(sp, 0), m.memory[word_at(sp, -1)]));
}

/// The code of `2dup`, run on the machine, pushes copies of the top two words of the data stack, in the same order.
#[verifier::rlimit(40)]
pub proof fn lemma_twodup_code(name: Seq<char>, pool: PoolModel, m: MachineModel)
    requires
        m.regs.len() == 8,
        m.memory.len() == 0x10000,
    ensures
        exists|prog: Seq<StackInstr>| #![trigger stack_code_text(prog)]
            stack_code_text(prog) == word_code(name, WordModel::TwoDup, pool).0 && {
                let m2 = run_stack_code(m, prog);
                &&& m2.regs[6] as int == word_at(m.regs[6], 2)
                &&& m2.memory == m.memory.update(word_at(m.regs[6], 0), stack_word(m, 1)).update(word_at(m.regs[6], 1), stack_word(m, 0))
            },
{
    let c0 = Seq::<StackInstr>::empty();
    let i0 = StackInstr::Ldr { dst: 0, base: 6, off: -2i16 };
    let c1 = c0.push(i0);
    lemma_push(m, c0, i0);
    assert(stack_instr_text(i0) =~= seq!['\t', 'l', 'd', 'r', ' ', 'r', '0', ',', ' ', 'r', '6', ',', ' ', '-', '2', '\n']);
    let i1 = StackInstr::Str { src: 0, base: 6, off: 0i16 };
    let c2 = c1.push(i1);
    lemma_push(m, c1, i1);
    assert(stack_instr_text(i1) =~= seq!['\t', 's', 't', 'r', ' ', 'r', '0', ',', ' ', 'r', '6', ',', ' ', '0', '\n']);
    let i2 = StackInstr::Ldr { dst: 0, base: 6, off: -1i16 };
    let c3 = c2.push(i2);
    lemma_push(m, c2, i2);
    assert(stack_instr_text(i2) =~= seq!['\t', 'l', 'd', 'r', ' ', 'r', '0', ',', ' ', 'r', '6', ',', ' ', '-', '1', '\n']);
    let i3 = StackInstr::Str { src: 0, base: 6, off: 1i16 };
    let c4 = c3.push(i3);
    lemma_push(m, c3, i3);
    assert(stack_instr_text(i3) =~= seq!['\t', 's', 't', 'r', ' ', 'r', '0', ',', ' ', 'r', '6', ',', ' ', '1', '\n']);
    let i4 = StackInstr::Add { dst: 6, off: 2i8 };
    let c5 = c4.push(i4);
    lemma_push(m, c4, i4);
    assert(stack_instr_text(i4) =~= seq!['\t', 'a', 'd', 'd', ' ', 'r', '6', ',', ' ', '2', '\n']);
    reveal_strlit("\tldr r0, r6, -2\n\tstr r0, r6, 0\n\tldr r0, r6, -1\n\tstr r0, r6, 1\n\tadd r6, 2\n");
    assert(stack_code_text(c5) =~= word_code(name, WordModel::TwoDup, pool).0);
    let sp = m.regs[6];
    let rp = m.regs[4];
    lemma_offset8(m.regs[6], 2i8);
    let m0 = run_stack_code(m, c0);
    let m1 = run_stack_code(m, c1);
    let m2 = run_stack_code(m, c2);
    let m3 = run_stack_code(m, c3);
    let m4 = run_stack_code(m, c4);
    let m5 = run_stack_code(m, c5);
    lemma_offset(sp, -1i16);
    lemma_offset(sp, -2i16);
    lemma_offset(sp, 0i16);
    lemma_offset(sp, 1i16);
    assert(m1.regs[0] == m.memory[word_at(sp, -2)] && m1.memory == m.memory && m1.regs[6] == sp);
    assert(m2.memory =~= m.memory.update(word_at(sp, 0), m.memory[word_at(sp, -2)]));
    assert(m2.regs[6] == sp && m2.regs[0] == m.memory[word_at(sp, -2)]);
    assert(m3.regs[0] == m.memory.update(word_at(sp, 0), m.memory[word_at(sp, -2)])[word_at(sp, -1)] && m3.memory == m.memory.update(word_at(sp, 0), m.memory[word_at(sp, -2)]) && m3.regs[6] == sp);
    assert(m4.memory =~= m.memory.update(word_at(sp, 0), m.memory[word_at(sp, -2)]).update(word_at(sp, 1), m.memory.update(word_at(sp, 0), m.memory[word_at(sp, -2)])[word_at(sp, -1)]));
    assert(m4.regs[6] == sp && m4.regs[0] == m.memory.update(word_at(sp, 0), m.memory[word_at(sp, -2)])[word_at(sp, -1)]);
    assert(m5.memory == m.memory.update(word_at(sp, 0), m.memory[word_at(sp, -2)]).update(word_at(sp, 1), m.memory.update(word_at(sp, 0), m.memory[word_at(sp, -2)])[word_at(sp, -1)]));
}

/// The code of `rot`, run on the machine, brings the third word of the data stack to the top, moving the top two down one place, and leaves the stack pointer.
#[verifier::rlimit(40)]
pub proof fn lemma_rot_code(name: Seq<char>, pool: PoolModel, m: MachineModel)
    requires
        m.regs.len() == 8,
        m.memory.len() == 0x10000,
    ensures
        exists|prog: Seq<StackInstr>| #![trigger stack_code_text(prog)]
            stack_code_text(prog) == word_code(name, WordModel::Rot, pool).0 && {
                let m2 = run_stack_code(m, prog);
                &&& m2.regs[6] == m.regs[6]
                &&& m2.memory == m.memory.update(word_at(m.regs[6], -3), stack_word(m, 1)).update(word_at(m.regs[6], -2), stack_word(m, 0)).update(word_at(m.regs[6], -1), stack_word(m, 2))
            },
{
    let c0 = Seq::<StackInstr>::empty();
    let i0 = StackInstr::Ldr { dst: 0, base: 6, off: -1i16 };
    let c1 = c0.push(i0);
    lemma_push(m, c0, i0);
    assert(stack_instr_text(i0) =~= seq!['\t', 'l', 'd', 'r', ' ', 'r', '0', ',', ' ', 'r', '6', ',', ' ', '-', '1', '\n']);
    let i1 = StackInstr::Ldr { dst: 1, base: 6, off: -2i16 };
    let c2 = c1.push(i1);
    lemma_push(m, c1, i1);
    assert(stack_instr_text(i1) =~= seq!['\t', 'l', 'd', 'r', ' ', 'r', '1', ',', ' ', 'r', '6', ',', ' ', '-', '2', '\n']);
    let i2 = StackInstr::Ldr { dst: 2, base: 6, off: -3i16 };
    let c3 = c2.push(i2);
    lemma_push(m, c2, i2);
    assert(stack_instr_text(i2) =~= seq!['\t', 'l', 'd', 'r', ' ', 'r', '2', ',', ' ', 'r', '6', ',', ' ', '-', '3', '\n']);
    let i3 = StackInstr::Str { src: 1, base: 6, off: -3i16 };
    let c4 = c3.push(i3);
    lemma_push(m, c3, i3);
    assert(stack_instr_text(i3) =~= seq!['\t', 's', 't', 'r', ' ', 'r', '1', ',', ' ', 'r', '6', ',', ' ', '-', '3', '\n']);
    let i4 = StackInstr::Str { src: 0, base: 6, off: -2i16 };
    let c5 = c4.push(i4);
    lemma_push(m, c4, i4);
    assert(stack_instr_text(i4) =~= seq!['\t', 's', 't', 'r', ' ', 'r', '0', ',', ' ', 'r', '6', ',', ' ', '-', '2', '\n']);
    let i5 = StackInstr::Str { src: 2, base: 6, off: -1i16 };
    let c6 = c5.push(i5);
    lemma_push(m, c5, i5);
    assert(stack_instr_text(i5) =~= seq!['\t', 's', 't', 'r', ' ', 'r', '2', ',', ' ', 'r', '6', ',', ' ', '-', '1', '\n']);
    reveal_strlit("\tldr r0, r6, -1\n\tldr r1, r6, -2\n\tldr r2, r6, -3\n\tstr r1, r6, -3\n\tstr r0, r6, -2\n\tstr r2, r6, -1\n");
    assert(stack_code_text(c6) =~= word_code(name, WordModel::Rot, pool).0);
    let sp = m.regs[6];
    let rp = m.regs[4];
    let m0 = run_stack_code(m, c0);
    let m1 = run_stack_code(m, c1);
    let m2 = run_stack_code(m, c2);
    let m3 = run_stack_code(m, c3);
    let m4 = run_stack_code(m, c4);
    let m5 = run_stack_code(m, c5);
    let m6 = run_stack_code(m, c6);
    lemma_offset(sp, -1i16);
    lemma_offset(sp, -2i16);
    lemma_offset(sp, -3i16);
    assert(m1.regs[0] == m.memory[word_at(sp, -1)] && m1.memory == m.memory && m1.regs[6] == sp);
    assert(m2.regs[1] == m.memory[word_at(sp, -2)] && m2.memory == m.memory && m2.regs[6] == sp);
    assert(m3.regs[2] == m.memory[word_at(sp, -3)] && m3.memory == m.memory && m3.regs[6] == sp);
    assert(m4.memory =~= m.memory.update(word_at(sp, -3), m.memory[word_at(sp, -2)]));
    assert(m4.regs[6] == sp && m4.regs[0] == m.memory[word_at(sp, -1)] && m4.regs[1] == m.memory[word_at(sp, -2)] && m4.regs[2] == m.memory[word_at(sp, -3)]);
    assert(m5.memory =~= m.memory.update(word_at(sp, -3), m.memory[word_at(sp, -2)]).update(word_at(sp, -2), m.memory[word_at(sp, -1)]));
    assert(m5.regs[6] == sp && m5.regs[0] == m.memory[word_at(sp, -1)] && m5.regs[1] == m.memory[word_at(sp, -2)] && m5.regs[2] == m.memory[word_at(sp, -3)]);
    assert(m6.memory =~= m.memory.update(word_at(sp, -3), m.memory[word_at(sp, -2)]).update(word_at(sp, -2), m.memory[word_at(sp, -1)]).update(word_at(sp, -1), m.memory[word_at(sp, -3)]));
    assert(m6.regs[6] == sp && m6.regs[0] == m.memory[word_at(sp, -1)] && m6.regs[1] == m.memory[word_at(sp, -2)] && m6.regs[2] == m.memory[word_at(sp, -3)]);
}

/// The code of `dr`, run on the machine, moves the top word of the data stack onto the return stack in `r4`.
pub proof fn lemma_dr_code(name: Seq<char>, pool: PoolModel, m: MachineModel)
    requires
        m.regs.len() == 8,
        m.memory.len() == 0x10000,
    ensures
        exists|prog: Seq<StackInstr>| #![trigger stack_code_text(prog)]
            stack_code_text(prog) == word_code(name, WordModel::Dr, pool).0 && {
                let m2 = run_stack_code(m, prog);
                &&& m2.regs[6] as int == word_at(m.regs[6], -1)
                &&& m2.regs[4] as int == word_at(m.regs[4], 1)
                &&& m2.memory == m.memory.update(word_at(m.regs[4], 0), stack_word(m, 0))
            },
{
    let c0 = Seq::<StackInstr>::empty();
    let i0 = StackInstr::Add { dst: 6, off: -1i8 };
    let c1 = c0.push(i0);
    lemma_push(m, c0, i0);
    assert(stack_instr_text(i0) =~= seq!['\t', 'a', 'd', 'd', ' ', 'r', '6', ',', ' ', '-', '1', '\n']);
    let i1 = StackInstr::Ldr { dst: 0, base: 6, off: 0i16 };
    let c2 = c1.push(i1);
    lemma_push(m, c1, i1);
    assert(stack_instr_text(i1) =~= seq!['\t', 'l', 'd', 'r', ' ', 'r', '0', ',', ' ', 'r', '6', ',', ' ', '0', '\n']);
    let i2 = StackInstr::Str { src: 0, base: 4, off: 0i16 };
    let c3 = c2.push(i2);
    lemma_push(m, c2, i2);
    assert(stack_instr_text(i2) =~= seq!['\t', 's', 't', 'r', ' ', 'r', '0', ',', ' ', 'r', '4', ',', ' ', '0', '\n']);
    let i3 = StackInstr::Add { dst: 4, off: 1i8 };
    let c4 = c3.push(i3);
    lemma_push(m, c3, i3);
    assert(stack_instr_text(i3) =~= seq!['\t', 'a', 'd', 'd', ' ', 'r', '4', ',', ' ', '1', '\n']);
    reveal_strlit("\tadd r6, -1\n\tldr r0, r6, 0\n\tstr r0, r4, 0\n\tadd r4, 1\n");
    assert(stack_code_text(c4) =~= word_code(name, WordModel::Dr, pool).0);
    let sp = m.regs[6];
    let rp = m.regs[4];
    lemma_offset8(m.regs[6], -1i8);
    lemma_offset8(m.regs[4], 1i8);
    let m0 = run_stack_code(m, c0);
    let m1 = run_stack_code(m, c1);
    let m2 = run_stack_code(m, c2);
    let m3 = run_stack_code(m, c3);
    let m4 = run_stack_code(m, c4);
}

/// The code of `rd`, run on the machine, moves the top word of the return stack in `r4` onto the data stack.
pub proof fn lemma_rd_code(name: Seq<char>, pool: PoolModel, m: MachineModel)
    requires
        m.regs.len() == 8,
        m.memory.len() == 0x10000,
    ensures
        exists|prog: Seq<StackInstr>| #![trigger stack_code_text(prog)]
            stack_code_text(prog) == word_code(name, WordModel::Rd, pool).0 && {
                let m2 = run_stack_code(m, prog);
                &&& m2.regs[4] as int == word_at(m.regs[4], -1)
                &&& m2.regs[6] as int == word_at(m.regs[6], 1)
                &&& m2.memory == m.memory.update(word_at(m.regs[6], 0), m.memory[word_at(m.regs[4], -1)])
            },
{
    let c0 = Seq::<StackInstr>::empty();
    let i0 = StackInstr::Add { dst: 4, off: -1i8 };
    let c1 = c0.push(i0);
    lemma_push(m, c0, i0);
    assert(stack_instr_text(i0) =~= seq!['\t', 'a', 'd', 'd', ' ', 'r', '4', ',', ' ', '-', '1', '\n']);
    let i1 = StackInstr::Ldr { dst: 0, base: 4, off: 0i16 };
    let c2 = c1.push(i1);
    lemma_push(m, c1, i1);
    assert(stack_instr_text(i1) =~= seq!['\t', 'l', 'd', 'r', ' ', 'r', '0', ',', ' ', 'r', '4', ',', ' ', '0', '\n']);
    let i2 = StackInstr::Str { src: 0, base: 6, off: 0i16 };
    let c3 = c2.push(i2);
    lemma_push(m, c2, i2);
    assert(stack_instr_text(i2) =~= seq!['\t', 's', 't', 'r', ' ', 'r', '0', ',', ' ', 'r', '6', ',', ' ', '0', '\n']);
    let i3 = StackInstr::Add { dst: 6, off: 1i8 };
    let c4 = c3.push(i3);
    lemma_push(m, c3, i3);
    assert(stack_instr_text(i3) =~= seq!['\t', 'a', 'd', 'd', ' ', 'r', '6', ',', ' ', '1', '\n']);
    reveal_strlit("\tadd r4, -1\n\tldr r0, r4, 0\n\tstr r0, r6, 0\n\tadd r6, 1\n");
    assert(stack_code_text(c4) =~= word_code(name, WordModel::Rd, pool).0);
    let sp = m.regs[6];
    let rp = m.regs[4];
    lemma_offset8(m.regs[4], -1i8);
    lemma_offset8(m.regs[6], 1i8);
    let m0 = run_stack_code(m, c0);
    let m1 = run_stack_code(m, c1);
    let m2 = run_stack_code(m, c2);
    let m3 = run_stack_code(m, c3);
    let m4 = run_stack_code(m, c4);
}

/// The code of `add`, run on the machine, adds the top two words of the data stack, wrapping round, and leaves the sum in their place.
#[verifier::rlimit(40)]
pub proof fn lemma_add_code(name: Seq<char>, pool: PoolModel, m: MachineModel)
    requires
        m.regs.len() == 8,
        m.memory.len() == 0x10000,
    ensures
        exists|prog: Seq<StackInstr>| #![trigger stack_code_text(prog)]
            stack_code_text(prog) == word_code(name, WordModel::Add, pool).0 && {
                let m2 = run_stack_code(m, prog);
                &&& m2.regs[6] as int == word_at(m.regs[6], -1)
                &&& m2.memory == m.memory.update(word_at(m.regs[6], -2), add16(stack_word(m, 0), stack_word(m, 1)))
            },
{
    let c0 = Seq::<StackInstr>::empty();
    let i0 = StackInstr::Ldr { dst: 0, base: 6, off: -1i16 };
    let c1 = c0.push(i0);
    lemma_push(m, c0, i0);
    assert(stack_instr_text(i0) =~= seq!['\t', 'l', 'd', 'r', ' ', 'r', '0', ',', ' ', 'r', '6', ',', ' ', '-', '1', '\n']);
    let i1 = StackInstr::Ldr { dst: 1, base: 6, off: -2i16 };
    let c2 = c1.push(i1);
    lemma_push(m, c1, i1);
    assert(stack_instr_text(i1) =~= seq!['\t', 'l', 'd', 'r', ' ', 'r', '1', ',', ' ', 'r', '6', ',', ' ', '-', '2', '\n']);
    let i2 = StackInstr::AddReg { dst: 0, src: 1 };
    let c3 = c2.push(i2);
    lemma_push(m, c2, i2);
    assert(stack_instr_text(i2) =~= seq!['\t', 'a', 'd', 'd', ' ', 'r', '0', ',', ' ', 'r', '1', '\n']);
    let i3 = StackInstr::Str { src: 0, base: 6, off: -2i16 };
    let c4 = c3.push(i3);
    lemma_push(m, c3, i3);
    assert(stack_instr_text(i3) =~= seq!['\t', 's', 't', 'r', ' ', 'r', '0', ',', ' ', 'r', '6', ',', ' ', '-', '2', '\n']);
    let i4 = StackInstr::Add { dst: 6, off: -1i8 };
    let c5 = c4.push(i4);
    lemma_push(m, c4, i4);
    assert(stack_instr_text(i4) =~= seq!['\t', 'a', 'd', 'd', ' ', 'r', '6', ',', ' ', '-', '1', '\n']);
    reveal_strlit("\tldr r0, r6, -1\n\tldr r1, r6, -2\n\tadd r0, r1\n\tstr r0, r6, -2\n\tadd r6, -1\n");
    assert(stack_code_text(c5) =~= word_code(name, WordModel::Add, pool).0);
    let sp = m.regs[6];
    let m0 = run_stack_code(m, c0);
    let m1 = run_stack_code(m, c1);
    let m2 = run_stack_code(m, c2);
    let m3 = run_stack_code(m, c3);
    let m4 = run_stack_code(m, c4);
    let m5 = run_stack_code(m, c5);
    lemma_offset(sp, -2i16);
    lemma_offset(sp, -1i16);
    lemma_offset8(sp, -1i8);
    assert(m1.regs[0] == m.memory[word_at(sp, -1)] && m1.memory == m.memory && m1.regs[6] == sp);
    assert(m2.regs[1] == m.memory[word_at(sp, -2)] && m2.memory == m.memory && m2.regs[6] == sp);
    assert(m3.memory == m.memory && m3.regs[6] == sp && m3.regs[0] == add16(m.memory[word_at(sp, -1)], m.memory[word_at(sp, -2)]) && m3.regs[1] == m.memory[word_at(sp, -2)]);
    assert(m4.memory =~= m.memory.update(word_at(sp, -2), add16(m.memory[word_at(sp, -1)], m.memory[word_at(sp, -2)])));
    assert(m4.regs[6] == sp && m4.regs[0] == add16(m.memory[word_at(sp, -1)], m.memory[word_at(sp, -2)]) && m4.regs[1] == m.memory[word_at(sp, -2)]);
    assert(m5.memory == m.memory.update(word_at(sp, -2), add16(m.memory[word_at(sp, -1)], m.memory[word_at(sp, -2)])));
}

/// The code of `and`, run on the machine, replaces the top two words of the data stack with their bitwise and.
#[verifier::rlimit(40)]
pub proof fn lemma_and_code(name: Seq<char>, pool: PoolModel, m: MachineModel)
    requires
        m.regs.len() == 8,
        m.memory.len() == 0x10000,
    ensures
        exists|prog: Seq<StackInstr>| #![trigger stack_code_text(prog)]
            stack_code_text(prog) == word_code(name, WordModel::And, pool).0 && {
                let m2 = run_stack_code(m, prog);
                &&& m2.regs[6] as int == word_at(m.regs[6], -1)
                &&& m2.memory == m.memory.update(word_at(m.regs[6], -2), stack_word(m, 0) & stack_word(m, 1))
            },
{
    let c0 = Seq::<StackInstr>::empty();
    let i0 = StackInstr::Ldr { dst: 0, base: 6, off: -1i16 };
    let c1 = c0.push(i0);
    lemma_push(m, c0, i0);
    assert(stack_instr_text(i0) =~= seq!['\t', 'l', 'd', 'r', ' ', 'r', '0', ',', ' ', 'r', '6', ',', ' ', '-', '1', '\n']);
    let i1 = StackInstr::Ldr { dst: 1, base: 6, off: -2i16 };
    let c2 = c1.push(i1);
    lemma_push(m, c1, i1);
    assert(stack_instr_text(i1) =~= seq!['\t', 'l', 'd', 'r', ' ', 'r', '1', ',', ' ', 'r', '6', ',', ' ', '-', '2', '\n']);
    let i2 = StackInstr::AndReg { dst: 0, src: 1 };
    let c3 = c2.push(i2);
    lemma_push(m, c2, i2);
    assert(stack_instr_text(i2) =~= seq!['\t', 'a', 'n', 'd', ' ', 'r', '0', ',', ' ', 'r', '1', '\n']);
    let i3 = StackInstr::Str { src: 0, base: 6, off: -2i16 };
    let c4 = c3.push(i3);
    lemma_push(m, c3, i3);
    assert(stack_instr_text(i3) =~= seq!['\t', 's', 't', 'r', ' ', 'r', '0', ',', ' ', 'r', '6', ',', ' ', '-', '2', '\n']);
    let i4 = StackInstr::Add { dst: 6, off: -1i8 };
    let c5 = c4.push(i4);
    lemma_push(m, c4, i4);
    assert(stack_instr_text(i4) =~= seq!['\t', 'a', 'd', 'd', ' ', 'r', '6', ',', ' ', '-', '1', '\n']);
    reveal_strlit("\tldr r0, r6, -1\n\tldr r1, r6, -2\n\tand r0, r1\n\tstr r0, r6, -2\n\tadd r6, -1\n");
    assert(stack_code_text(c5) =~= word_code(name, WordModel::And, pool).0);
    let sp = m.regs[6];
    let m0 = run_stack_code(m, c0);
    let m1 = run_stack_code(m, c1);
    let m2 = run_stack_code(m, c2);
    let m3 = run_stack_code(m, c3);
    let m4 = run_stack_code(m, c4);
    let m5 = run_stack_code(m, c5);
    lemma_offset(sp, -2i16);
    lemma_offset(sp, -1i16);
    lemma_offset8(sp, -1i8);
    assert(m1.regs[0] == m.memory[word_at(sp, -1)] && m1.memory == m.memory && m1.regs[6] == sp);
    assert(m2.regs[1] == m.memory[word_at(sp, -2)] && m2.memory == m.memory && m2.regs[6] == sp);
    assert(m3.memory == m.memory && m3.regs[6] == sp && m3.regs[0] == (m.memory[word_at(sp, -1)] & m.memory[word_at(sp, -2)]) && m3.regs[1] == m.memory[word_at(sp, -2)]);
    assert(m4.memory =~= m.memory.update(word_at(sp, -2), (m.memory[word_at(sp, -1)] & m.memory[word_at(sp, -2)])));
    assert(m4.regs[6] == sp && m4.regs[0] == (m.memory[word_at(sp, -1)] & m.memory[word_at(sp, -2)]) && m4.regs[1] == m.memory[word_at(sp, -2)]);
    assert(m5.memory == m.memory.update(word_at(sp, -2), (m.memory[word_at(sp, -1)] & m.memory[word_at(sp, -2)])));
}

/// The code of `not`, run on the machine, replaces the top word of the data stack with its bitwise complement.
#[verifier::rlimit(40)]
pub proof fn lemma_not_code(name: Seq<char>, pool: PoolModel, m: MachineModel)
    requires
        m.regs.len() == 8,
        m.memory.len() == 0x10000,
    ensures
        exists|prog: Seq<StackInstr>| #![trigger stack_code_text(prog)]
            stack_code_text(prog) == word_code(name, WordModel::Not, pool).0 && {
                let m2 = run_stack_code(m, prog);
                &&& m2.regs[6] == m.regs[6]
                &&& m2.memory == m.memory.update(word_at(m.regs[6], -1), !stack_word(m, 0))
            },
{
    let c0 = Seq::<StackInstr>::empty();
    let i0 = StackInstr::Ldr { dst: 0, base: 6, off: -1i16 };
    let c1 = c0.push(i0);
    lemma_push(m, c0, i0);
    assert(stack_instr_text(i0) =~= seq!['\t', 'l', 'd', 'r', ' ', 'r', '0', ',', ' ', 'r', '6', ',', ' ', '-', '1', '\n']);
    let i1 = StackInstr::Not { dst: 0 };
    let c2 = c1.push(i1);
    lemma_push(m, c1, i1);
    assert(stack_instr_text(i1) =~= seq!['\t', 'n', 'o', 't', ' ', 'r', '0', '\n']);
    let i2 = StackInstr::Str { src: 0, base: 6, off: -1i16 };
    let c3 = c2.push(i2);
    lemma_push(m, c2, i2);
    assert(stack_instr_text(i2) =~= seq!['\t', 's', 't', 'r', ' ', 'r', '0', ',', ' ', 'r', '6', ',', ' ', '-', '1', '\n']);
    reveal_strlit("\tldr r0, r6, -1\n\tnot r0\n\tstr r0, r6, -1\n");
    assert(stack_code_text(c3) =~= word_code(name, WordModel::Not, pool).0);
    let sp = m.regs[6];
    let m0 = run_stack_code(m, c0);
    let m1 = run_stack_code(m, c1);
    let m2 = run_stack_code(m, c2);
    let m3 = run_stack_code(m, c3);
    lemma_offset(sp, -1i16);
    assert(m1.regs[0] == m.memory[word_at(sp, -1)] && m1.memory == m.memory && m1.regs[6] == sp);
    assert(m2.memory == m.memory && m2.regs[6] == sp && m2.regs[0] == !m.memory[word_at(sp, -1)]);
    assert(m3.memory =~= m.memory.update(word_at(sp, -1), !m.memory[word_at(sp, -1)]));
    assert(m3.regs[6] == sp && m3.regs[0] == !m.memory[word_at(sp, -1)]);
}

} // verus!
