//! The Bob-16 machine: eight 16-bit registers, a program counter, three condition
//! flags and a memory of 16-bit words at 16-bit addresses. Execution is a pure state transition; the
//! input and output that traps ask for is handed back to the caller as an
//! [`Effect`].
use vstd::prelude::*;
use crate::bob16::inst::{Instruction, decode, registers_in_range, lemma_decode_registers};
use crate::text::chars_of;
use vstd::utf8::encode_utf8;

verus! {

/// The number of 16-bit addresses.
pub open spec fn memory_words() -> nat {
    0x10000
}

/// The address `i` words after `addr`, wrapping round.
pub open spec fn word_at(addr: u16, i: int) -> int {
    (addr + i) % 65536
}

/// The mathematical state of a [`Machine`].
pub struct MachineModel {
    pub regs: Seq<u16>,
    pub pc: u16,
    pub n: bool,
    pub z: bool,
    pub p: bool,
    pub halted: bool,
    pub memory: Seq<u16>,
}

/// Outside work that an instruction asks of whoever runs the machine.
#[derive(Debug)]
pub enum Effect {
    /// Nothing to do.
    Continue,
    /// Print one character.
    PutChar(u8),
    /// Print the characters, then flush; if `endless`, memory holds no zero word
    /// and the characters are printed again and again for ever.
    PutString { text: Vec<u8>, endless: bool },
    /// Read a line of input and hand it to [`Machine::store_line`].
    ReadLine,
    /// A trap vector that the machine does not implement.
    Unimplemented(u8),
}

/// Addition modulo 2^16.
pub open spec fn add16(a: u16, b: u16) -> u16 {
    ((a + b) % 65536) as u16
}

/// The state after writing `v` to register `r` and setting the flags from `v`.
pub open spec fn with_reg(m: MachineModel, r: u8, v: u16) -> MachineModel {
    MachineModel {
        regs: m.regs.update(r as int, v),
        n: (v as i16) < 0,
        z: v == 0,
        p: (v as i16) > 0,
        ..m
    }
}

pub open spec fn with_mem(m: MachineModel, a: u16, v: u16) -> MachineModel {
    MachineModel { memory: m.memory.update(a as int, v), ..m }
}

pub open spec fn with_pc(m: MachineModel, pc: u16) -> MachineModel {
    MachineModel { pc, ..m }
}

/// The state after executing `inst` in state `m`.
pub open spec fn execute_spec(m: MachineModel, inst: Instruction) -> MachineModel {
    match inst {
        Instruction::Nop => m,
        Instruction::AddRR { dst, src1, src2 } => with_reg(m, dst, add16(m.regs[src1 as int], m.regs[src2 as int])),
        Instruction::AddRI { dst, src1, imm } => with_reg(m, dst, add16(m.regs[src1 as int], imm as i16 as u16)),
        Instruction::AddIpR { dst, src } => with_reg(m, dst, add16(m.regs[dst as int], m.regs[src as int])),
        Instruction::AddIpI { dst, imm } => with_reg(m, dst, add16(m.regs[dst as int], imm as i16 as u16)),
        Instruction::AndRR { dst, src1, src2 } => with_reg(m, dst, m.regs[src1 as int] & m.regs[src2 as int]),
        Instruction::AndRI { dst, src1, imm } => with_reg(m, dst, (m.regs[src1 as int] as i16 & imm as i16) as u16),
        Instruction::AndIpR { dst, src } => with_reg(m, dst, m.regs[dst as int] & m.regs[src as int]),
        Instruction::AndIpI { dst, imm } => with_reg(m, dst, (m.regs[dst as int] as i16 & imm as i16) as u16),
        Instruction::NotR { dst, src } => with_reg(m, dst, !m.regs[src as int]),
        Instruction::NotIp { dst } => with_reg(m, dst, !m.regs[dst as int]),
        Instruction::Ld { dst, imm } => with_reg(m, dst, m.memory[add16(m.pc, imm as u16) as int]),
        Instruction::Ldi { dst, imm } => with_reg(m, dst, m.memory[m.memory[add16(m.pc, imm as u16) as int] as int]),
        Instruction::Ldr { dst, base, imm } => with_reg(m, dst, m.memory[add16(m.regs[base as int], imm as u16) as int]),
        Instruction::St { src, imm } => with_mem(m, add16(m.pc, imm as u16), m.regs[src as int]),
        Instruction::Sti { src, imm } => with_mem(m, m.memory[add16(m.pc, imm as u16) as int], m.regs[src as int]),
        Instruction::Str { src, base, imm } => with_mem(m, add16(m.regs[base as int], imm as u16), m.regs[src as int]),
        Instruction::Br { n, z, p, imm } => if (n && m.n) || (z && m.z) || (p && m.p) {
            with_pc(m, add16(m.pc, imm as u16))
        } else {
            m
        },
        Instruction::Jmp { src } => with_pc(m, m.regs[src as int]),
        Instruction::Jsr { imm } => MachineModel { regs: m.regs.update(7, m.pc), pc: add16(m.pc, imm as u16), ..m },
        Instruction::JsrR { src } => MachineModel { regs: m.regs.update(7, m.pc), pc: m.regs.update(7, m.pc)[src as int], ..m },
        Instruction::Lea { dst, imm } => with_reg(m, dst, add16(m.pc, imm as u16)),
        Instruction::Ret => with_pc(m, m.regs[7]),
        Instruction::Trap { vector } => if vector == 0 {
            MachineModel { halted: true, ..m }
        } else {
            m
        },
    }
}

/// The number of words from `addr` (wrapping round) before the first zero word,
/// or `memory_words()` if there is none.
pub open spec fn string_len(mem: Seq<u16>, addr: u16) -> nat
    decreases memory_words(),
{
    string_len_from(mem, addr, 0)
}

pub open spec fn string_len_from(mem: Seq<u16>, addr: u16, i: nat) -> nat
    decreases memory_words() - i,
{
    if i >= memory_words() {
        memory_words()
    } else if mem[((addr + i) % 65536) as int] == 0 {
        i
    } else {
        string_len_from(mem, addr, i + 1)
    }
}

/// The outside work that executing `inst` in state `m` asks for.
pub open spec fn effect_ok(m: MachineModel, inst: Instruction, e: Effect) -> bool {
    match inst {
        Instruction::Trap { vector } => if vector == 0 {
            e is Continue
        } else if vector == 1 {
            e == Effect::PutChar(m.regs[0] as u8)
        } else if vector == 2 {
            e matches Effect::PutString { text, endless } && {
                let k = string_len(m.memory, m.regs[0]);
                &&& endless == (k == memory_words())
                &&& text@ == Seq::new(k, |i: int| m.memory[((m.regs[0] + i) % 65536) as int] as u8)
            }
        } else if vector == 3 {
            e is ReadLine
        } else {
            e == Effect::Unimplemented(vector)
        },
        _ => e is Continue,
    }
}

/// Whether the words from `addr` that trap 2 reads, up to and including the
/// first zero word, are all in memory.
pub open spec fn string_in_bounds(mem: Seq<u16>, addr: u16) -> bool {
    forall|i: int| 0 <= i <= string_len(mem, addr) && i < memory_words() ==> #[trigger] word_at(addr, i) < mem.len()
}

/// Whether executing `inst` in state `m` reads and writes only words that
/// memory holds.
pub open spec fn in_bounds(m: MachineModel, inst: Instruction) -> bool {
    let len = m.memory.len();
    match inst {
        Instruction::Ld { imm, .. } => add16(m.pc, imm as u16) < len,
        Instruction::Ldi { imm, .. } => add16(m.pc, imm as u16) < len && m.memory[add16(m.pc, imm as u16) as int] < len,
        Instruction::Ldr { base, imm, .. } => add16(m.regs[base as int], imm as u16) < len,
        Instruction::St { imm, .. } => add16(m.pc, imm as u16) < len,
        Instruction::Sti { imm, .. } => add16(m.pc, imm as u16) < len && m.memory[add16(m.pc, imm as u16) as int] < len,
        Instruction::Str { base, imm, .. } => add16(m.regs[base as int], imm as u16) < len,
        Instruction::Trap { vector } => vector == 2 ==> string_in_bounds(m.memory, m.regs[0]),
        _ => true,
    }
}

/// Whether the next cycle from `m` touches only words that memory holds: the
/// word at the counter, and those the instruction there reads and writes.
pub open spec fn step_in_bounds(m: MachineModel) -> bool {
    m.halted || ((m.pc as int) < m.memory.len() && in_bounds(with_pc(m, add16(m.pc, 1)), decode(m.memory[m.pc as int])))
}

/// The state that `cycle` moves to from `m`: a halted machine stays as it is;
/// otherwise the word at the program counter is fetched, the counter advanced,
/// and the decoded instruction executed.
pub open spec fn cycle_spec(m: MachineModel) -> MachineModel {
    if m.halted {
        m
    } else {
        execute_spec(with_pc(m, add16(m.pc, 1)), decode(m.memory[m.pc as int]))
    }
}

/// Whether the next cycle from `m` asks for outside work: the machine runs
/// and the word at the counter is a trap other than the halt.
pub open spec fn asks_io(m: MachineModel) -> bool {
    !m.halted && (decode(m.memory[m.pc as int]) matches Instruction::Trap { vector } && vector != 0)
}

/// The state after at most `k` cycles from `m`: cycles stop at a halt, and
/// after a cycle that asks for outside work.
pub open spec fn steps_spec(m: MachineModel, k: nat) -> MachineModel
    decreases k,
{
    if k == 0 || m.halted {
        m
    } else if asks_io(m) {
        cycle_spec(m)
    } else {
        steps_spec(cycle_spec(m), (k - 1) as nat)
    }
}

/// The state in which the cycle asking for outside work starts, if one of
/// the at most `k` cycles from `m` asks for it.
pub open spec fn io_state(m: MachineModel, k: nat) -> Option<MachineModel>
    decreases k,
{
    if k == 0 || m.halted {
        None
    } else if asks_io(m) {
        Some(m)
    } else {
        io_state(cycle_spec(m), (k - 1) as nat)
    }
}

/// Whether each of the at most `k` cycles from `m` that `steps_spec` runs
/// touches only words that memory holds.
pub open spec fn steps_in_bounds(m: MachineModel, k: nat) -> bool
    decreases k,
{
    if k == 0 || m.halted {
        true
    } else if asks_io(m) {
        step_in_bounds(m)
    } else {
        step_in_bounds(m) && steps_in_bounds(cycle_spec(m), (k - 1) as nat)
    }
}

/// The state in which `start` begins a program: registers, counter and flags clear.
pub open spec fn start_spec(m: MachineModel) -> MachineModel {
    MachineModel {
        regs: seq![0u16, 0, 0, 0, 0, 0, 0, 0],
        pc: 0,
        n: false,
        z: false,
        p: false,
        halted: false,
        memory: m.memory,
    }
}

/// The position of word `j` counted from `addr`, wrapping round.
pub open spec fn offset_from(addr: u16, j: int) -> int {
    (j - addr) % 65536
}

/// Where trap 3 puts the zero word after an input of `byte_len` bytes,
/// counted from the address in r0: the byte length, capped at one less than
/// r1 (at zero where r1 is zero).
pub open spec fn line_end(m: MachineModel, byte_len: nat) -> int {
    let cap: int = if m.regs[1] == 0 { 0 } else { m.regs[1] - 1 };
    if byte_len < cap { byte_len as int } else { cap }
}

/// How many characters of the input `line` trap 3 stores.
pub open spec fn line_count(m: MachineModel, line: Seq<char>, byte_len: nat) -> int {
    let n = line_end(m, byte_len);
    if n < line.len() { n } else { line.len() as int }
}

/// The memory after trap 3 stores the input `line` (of `byte_len` UTF-8 bytes):
/// from the address in r0, at most `n` characters, where `n` is the byte length
/// capped at one less than r1, then a zero word `n` places after r0.
pub open spec fn store_line_spec(m: MachineModel, line: Seq<char>, byte_len: nat) -> MachineModel {
    let addr = m.regs[0];
    let n = line_end(m, byte_len);
    let k = line_count(m, line, byte_len);
    MachineModel {
        memory: Seq::new(
            m.memory.len(),
            |j: int|
                if j < memory_words() && offset_from(addr, j) < k {
                    line[offset_from(addr, j)] as u16
                } else if j < memory_words() && offset_from(addr, j) == n {
                    0u16
                } else {
                    m.memory[j]
                },
        ),
        ..m
    }
}

/// Whether the words that trap 3 writes for the input `line` (of `byte_len`
/// UTF-8 bytes) are all in memory: the characters stored and the zero word.
pub open spec fn store_line_in_bounds(m: MachineModel, line: Seq<char>, byte_len: nat) -> bool {
    let addr = m.regs[0];
    let n = line_end(m, byte_len);
    let k = line_count(m, line, byte_len);
    forall|j: int| (0 <= j < k || j == n) ==> #[trigger] word_at(addr, j) < m.memory.len()
}

/// A trap 2 string ends no earlier than where its scan has got to.
proof fn lemma_string_len_from_ge(mem: Seq<u16>, addr: u16, i: nat)
    requires
        i <= memory_words(),
    ensures
        string_len_from(mem, addr, i) >= i,
    decreases memory_words() - i,
{
    if i < memory_words() && mem[((addr + i) % 65536) as int] != 0 {
        lemma_string_len_from_ge(mem, addr, i + 1);
    }
}

/// A memory that holds every 16-bit address holds every word the machine
/// touches, in any number of cycles.
pub proof fn lemma_full_memory_in_bounds(m: MachineModel, k: nat)
    requires
        m.memory.len() >= memory_words(),
    ensures
        steps_in_bounds(m, k),
    decreases k,
{
    assert forall|a: u16, i: int| #[trigger] word_at(a, i) < memory_words() by {}
    if k > 0 && !m.halted && !asks_io(m) {
        lemma_full_memory_in_bounds(cycle_spec(m), (k - 1) as nat);
    }
}

struct Registers {
    regs: [u16; 8],
}

/// A Bob-16 machine with its memory.
pub struct Machine {
    regs: Registers,
    pc: u16,
    n: bool,
    z: bool,
    p: bool,
    halted: bool,
    memory: Box<[u16]>,
}

impl View for Machine {
    type V = MachineModel;

    closed spec fn view(&self) -> MachineModel {
        MachineModel {
            regs: self.regs.regs@,
            pc: self.pc,
            n: self.n,
            z: self.z,
            p: self.p,
            halted: self.halted,
            memory: self.memory@,
        }
    }
}

impl Machine {
    /// A halted machine with all registers and flags clear, over `memory`.
    pub fn new(memory: Box<[u16]>) -> (m: Self)
        ensures
            m@ == (MachineModel {
                regs: seq![0u16, 0, 0, 0, 0, 0, 0, 0],
                pc: 0,
                n: false,
                z: false,
                p: false,
                halted: true,
                memory: memory@,
            }),
    {
        let m = Self {
            regs: Registers { regs: [0; 8] },
            pc: 0,
            n: false,
            z: false,
            p: false,
            halted: true,
            memory,
        };
        assert(m.regs.regs@ =~= seq![0u16, 0, 0, 0, 0, 0, 0, 0]);
        m
    }

    /// Sets the flags from `val` read as a signed number.
    pub fn update_flags(&mut self, val: u16)
        ensures
            final(self)@ == (MachineModel { n: (val as i16) < 0, z: val == 0, p: (val as i16) > 0, ..old(self)@ }),
    {
        assert(((val as i16) == 0) == (val == 0)) by (bit_vector);
        let val = val as i16;
        self.n = val < 0;
        self.z = val == 0;
        self.p = val > 0;
    }

    /// Reads the word at the program counter and advances it.
    pub fn fetch(&mut self) -> (w: u16)
        requires
            (old(self)@.pc as int) < old(self)@.memory.len(),
        ensures
            w == old(self)@.memory[old(self)@.pc as int],
            final(self)@ == with_pc(old(self)@, add16(old(self)@.pc, 1)),
    {
        let fetched = self.memory[self.pc as usize];
        self.pc = self.pc.wrapping_add(1);
        fetched
    }

    fn reg(&self, r: u8) -> (v: u16)
        requires
            r < 8,
        ensures
            v == self@.regs[r as int],
    {
        self.regs.regs[r as usize]
    }

    fn load(&self, a: u16) -> (v: u16)
        requires
            (a as int) < self@.memory.len(),
        ensures
            v == self@.memory[a as int],
    {
        self.memory[a as usize]
    }

    fn set_reg(&mut self, r: u8, v: u16)
        requires
            r < 8,
        ensures
            final(self)@ == with_reg(old(self)@, r, v),
    {
        self.regs.regs[r as usize] = v;
        self.update_flags(v);
    }

    fn store(&mut self, a: u16, v: u16)
        requires
            (a as int) < old(self)@.memory.len(),
        ensures
            final(self)@ == with_mem(old(self)@, a, v),
    {
        self.memory[a as usize] = v;
    }

    /// Executes one decoded instruction. The new state is [`execute_spec`]; the
    /// returned effect is the input or output that a trap asks for.
    #[verifier::rlimit(60)]
    #[verifier::spinoff_prover]
    pub fn execute(&mut self, inst: Instruction) -> (e: Effect)
        requires
            registers_in_range(inst),
            in_bounds(old(self)@, inst),
        ensures
            final(self)@ == execute_spec(old(self)@, inst),
            effect_ok(old(self)@, inst, e),
    {
        match inst {
            Instruction::Nop => {},
            Instruction::AddRR { dst, src1, src2 } => {
                let v = self.reg(src1).wrapping_add(self.reg(src2));
                self.set_reg(dst, v);
            },
            Instruction::AddRI { dst, src1, imm } => {
                let v = self.reg(src1).wrapping_add(imm as i16 as u16);
                self.set_reg(dst, v);
            },
            Instruction::AddIpR { dst, src } => {
                let v = self.reg(dst).wrapping_add(self.reg(src));
                self.set_reg(dst, v);
            },
            Instruction::AddIpI { dst, imm } => {
                let v = self.reg(dst).wrapping_add(imm as i16 as u16);
                self.set_reg(dst, v);
            },
            Instruction::AndRR { dst, src1, src2 } => {
                let v = self.reg(src1) & self.reg(src2);
                self.set_reg(dst, v);
            },
            Instruction::AndRI { dst, src1, imm } => {
                let v = (self.reg(src1) as i16 & imm as i16) as u16;
                self.set_reg(dst, v);
            },
            Instruction::AndIpR { dst, src } => {
                let v = self.reg(dst) & self.reg(src);
                self.set_reg(dst, v);
            },
            Instruction::AndIpI { dst, imm } => {
                let v = (self.reg(dst) as i16 & imm as i16) as u16;
                self.set_reg(dst, v);
            },
            Instruction::NotR { dst, src } => {
                let v = !self.reg(src);
                self.set_reg(dst, v);
            },
            Instruction::NotIp { dst } => {
                let v = !self.reg(dst);
                self.set_reg(dst, v);
            },
            Instruction::Ld { dst, imm } => {
                let addr = self.pc.wrapping_add(imm as u16);
                let v = self.load(addr);
                self.set_reg(dst, v);
            },
            Instruction::Ldi { dst, imm } => {
                let addr = self.pc.wrapping_add(imm as u16);
                let v = self.load(self.load(addr));
                self.set_reg(dst, v);
            },
            Instruction::Ldr { dst, base, imm } => {
                let addr = self.reg(base).wrapping_add(imm as u16);
                let v = self.load(addr);
                self.set_reg(dst, v);
            },
            Instruction::St { src, imm } => {
                let addr = self.pc.wrapping_add(imm as u16);
                let v = self.reg(src);
                self.store(addr, v);
            },
            Instruction::Sti { src, imm } => {
                let addr = self.pc.wrapping_add(imm as u16);
                let target = self.load(addr);
                let v = self.reg(src);
                self.store(target, v);
            },
            Instruction::Str { src, base, imm } => {
                let addr = self.reg(base).wrapping_add(imm as u16);
                let v = self.reg(src);
                self.store(addr, v);
            },
            Instruction::Br { n, z, p, imm } => {
                if n && self.n || z && self.z || p && self.p {
                    self.pc = self.pc.wrapping_add(imm as u16);
                }
            },
            Instruction::Jmp { src } => {
                self.pc = self.reg(src);
            },
            Instruction::Jsr { imm } => {
                self.regs.regs[7] = self.pc;
                self.pc = self.pc.wrapping_add(imm as u16);
            },
            Instruction::JsrR { src } => {
                self.regs.regs[7] = self.pc;
                self.pc = self.reg(src);
            },
            Instruction::Lea { dst, imm } => {
                let v = self.pc.wrapping_add(imm as u16);
                self.set_reg(dst, v);
            },
            Instruction::Ret => {
                self.pc = self.reg(7);
            },
            Instruction::Trap { vector } => {
                if vector == 0 {
                    self.halted = true;
                } else if vector == 1 {
                    return Effect::PutChar(self.reg(0) as u8);
                } else if vector == 2 {
                    return self.string_at(self.reg(0));
                } else if vector == 3 {
                    return Effect::ReadLine;
                } else {
                    return Effect::Unimplemented(vector);
                }
            },
        }
        Effect::Continue
    }

    /// Runs one fetch-decode-execute step, unless the machine is halted.
    pub fn cycle(&mut self) -> (e: Effect)
        requires
            step_in_bounds(old(self)@),
        ensures
            final(self)@ == cycle_spec(old(self)@),
            old(self)@.halted ==> e is Continue,
            !old(self)@.halted ==> effect_ok(
                with_pc(old(self)@, add16(old(self)@.pc, 1)),
                decode(old(self)@.memory[old(self)@.pc as int]),
                e,
            ),
    {
        if self.halted {
            return Effect::Continue;
        }
        let fetched = self.fetch();
        let decoded = Instruction::from(fetched);
        proof {
            lemma_decode_registers(fetched);
        }
        self.execute(decoded)
    }

    /// Runs at most `max` cycles: until a halt, or until a cycle asks for
    /// outside work, whose effect is returned for the caller to perform; else
    /// `Continue`.
    pub fn run_steps(&mut self, max: u64) -> (e: Effect)
        requires
            steps_in_bounds(old(self)@, max as nat),
        ensures
            final(self)@ == steps_spec(old(self)@, max as nat),
            match io_state(old(self)@, max as nat) {
                Some(mi) => effect_ok(with_pc(mi, add16(mi.pc, 1)), decode(mi.memory[mi.pc as int]), e),
                None => e is Continue,
            },
    {
        let mut k: u64 = 0;
        while k < max
            invariant
                k <= max,
                steps_spec(old(self)@, max as nat) == steps_spec(self@, (max - k) as nat),
                steps_in_bounds(self@, (max - k) as nat),
                io_state(old(self)@, max as nat) == io_state(self@, (max - k) as nat),
            decreases max - k,
        {
            if self.halted {
                return Effect::Continue;
            }
            let ghost m = self@;
            let e = self.cycle();
            if !matches!(e, Effect::Continue) {
                proof {
                    if !asks_io(m) {
                        assert(e is Continue);
                    }
                }
                return e;
            }
            proof {
                if asks_io(m) {
                    let inst = decode(m.memory[m.pc as int]);
                    assert(!(e is Continue));
                }
            }
            k += 1;
        }
        Effect::Continue
    }

    /// Starts a program, as `start` does, and runs at most `max` cycles, as
    /// `run_steps` does.
    pub fn run(&mut self, max: u64) -> (e: Effect)
        requires
            steps_in_bounds(start_spec(old(self)@), max as nat),
        ensures
            final(self)@ == steps_spec(start_spec(old(self)@), max as nat),
            match io_state(start_spec(old(self)@), max as nat) {
                Some(mi) => effect_ok(with_pc(mi, add16(mi.pc, 1)), decode(mi.memory[mi.pc as int]), e),
                None => e is Continue,
            },
    {
        self.start();
        self.run_steps(max)
    }

    /// Starts a program: clears the registers, counter and flags and lets the
    /// machine run, from the word at address 0.
    pub fn start(&mut self)
        ensures
            final(self)@ == start_spec(old(self)@),
    {
        self.regs = Registers { regs: [0x0000; 8] };
        self.pc = 0x0000;
        self.n = false;
        self.z = false;
        self.p = false;
        self.halted = false;
        assert(self.regs.regs@ =~= seq![0u16, 0, 0, 0, 0, 0, 0, 0]);
    }

    /// Whether the machine has stopped.
    pub fn is_halted(&self) -> (h: bool)
        ensures
            h == self@.halted,
    {
        self.halted
    }

    /// Completes trap 3 with the line that was read, trailing newline included.
    #[verifier::rlimit(80)]
    #[verifier::spinoff_prover]
    pub fn store_line(&mut self, line: &str)
        requires
            store_line_in_bounds(old(self)@, line@, encode_utf8(line@).len()),
        ensures
            final(self)@ == store_line_spec(old(self)@, line@, encode_utf8(line@).len()),
    {
        let addr = self.reg(0);
        let max_len = self.reg(1) as usize;
        let cap = if max_len == 0 { 0 } else { max_len - 1 };
        let blen = line.as_bytes().len();
        assert(blen == encode_utf8(line@).len());
        let n = if blen < cap { blen } else { cap };
        let chars = chars_of(line);
        let k = if n < chars.len() { n } else { chars.len() };
        let ghost old_mem = self@.memory;
        let ghost len = old_mem.len();
        assert(n as int == line_end(old(self)@, blen as nat));
        assert(k as int == line_count(old(self)@, line@, blen as nat));
        let mut i: usize = 0;
        while i < k
            invariant
                self@.memory.len() == len,
                len == old_mem.len(),
                store_line_in_bounds(old(self)@, line@, blen as nat),
                k as int == line_count(old(self)@, line@, blen as nat),
                n as int == line_end(old(self)@, blen as nat),
                self@.regs == old(self)@.regs,
                self@.pc == old(self)@.pc,
                self@.n == old(self)@.n && self@.z == old(self)@.z && self@.p == old(self)@.p,
                self@.halted == old(self)@.halted,
                old_mem == old(self)@.memory,
                addr == old(self)@.regs[0],
                chars@ == line@,
                i <= k <= n < 65536,
                k <= chars@.len(),
                forall|j: int| 0 <= j < len ==> #[trigger] self@.memory[j] == if j < 65536 && offset_from(addr, j) < i {
                    chars@[offset_from(addr, j)] as u16
                } else {
                    old_mem[j]
                },
            decreases k - i,
        {
            let a = addr.wrapping_add(i as u16);
            proof {
                let m0 = old(self)@;
                assert(0 <= i < line_count(m0, line@, blen as nat));
                assert(word_at(m0.regs[0], i as int) < m0.memory.len());
                assert(a as int == word_at(addr, i as int));
            }
            self.store(a, chars[i] as u16);
            assert forall|j: int| 0 <= j < len implies #[trigger] self@.memory[j] == if j < 65536 && offset_from(addr, j) < i + 1 {
                chars@[offset_from(addr, j)] as u16
            } else {
                old_mem[j]
            } by {
                if j == a as int {
                    assert(offset_from(addr, j) == i);
                } else if j < 65536 {
                    assert(offset_from(addr, j) != i);
                }
            }
            i += 1;
        }
        let a = addr.wrapping_add(n as u16);
        assert(word_at(addr, n as int) < len);
        self.store(a, 0);
        let ghost want = store_line_spec(old(self)@, line@, encode_utf8(line@).len());
        assert forall|j: int| 0 <= j < len implies #[trigger] self@.memory[j] == want.memory[j] by {
            assert(want.memory[j] == (if j < 65536 && offset_from(addr, j) < k {
                line@[offset_from(addr, j)] as u16
            } else if j < 65536 && offset_from(addr, j) == n {
                0u16
            } else {
                old_mem[j]
            }));
            if j == a as int {
                assert(offset_from(addr, j) == n);
            } else if j < 65536 {
                assert(offset_from(addr, j) != n);
            }
        }
        assert(self@.memory =~= want.memory);
    }

    /// The characters that trap 2 prints from `addr`.
    fn string_at(&self, addr: u16) -> (e: Effect)
        requires
            string_in_bounds(self@.memory, addr),
        ensures
            e matches Effect::PutString { text, endless } && {
                let k = string_len(self@.memory, addr);
                &&& endless == (k == memory_words())
                &&& text@ == Seq::new(k, |i: int| self@.memory[((addr + i) % 65536) as int] as u8)
            },
    {
        let mut text: Vec<u8> = Vec::new();
        let mut i: u32 = 0;
        while i < 0x10000
            invariant
                i <= 0x10000,
                string_in_bounds(self@.memory, addr),
                i <= string_len(self@.memory, addr),
                string_len(self@.memory, addr) == string_len_from(self@.memory, addr, i as nat),
                text@ == Seq::new(i as nat, |j: int| self@.memory[((addr + j) % 65536) as int] as u8),
            decreases 0x10000 - i,
        {
            let a = addr.wrapping_add(i as u16);
            assert(a == (addr + i) % 65536);
            assert(word_at(addr, i as int) < self@.memory.len());
            let w = self.load(a);
            if w == 0 {
                return Effect::PutString { text, endless: false };
            }
            text.push(w as u8);
            proof { lemma_string_len_from_ge(self@.memory, addr, (i + 1) as nat); }
            assert(text@ =~= Seq::new((i + 1) as nat, |j: int| self@.memory[((addr + j) % 65536) as int] as u8));
            i += 1;
        }
        Effect::PutString { text, endless: true }
    }
}

/// The register an instruction writes its result to: the arithmetic, logic,
/// load and address instructions write their destination register; the
/// others write none, or only the return address.
pub open spec fn result_register(inst: Instruction) -> Option<u8> {
    match inst {
        Instruction::AddRR { dst, .. } | Instruction::AddRI { dst, .. } | Instruction::AddIpR { dst, .. }
        | Instruction::AddIpI { dst, .. } | Instruction::AndRR { dst, .. } | Instruction::AndRI { dst, .. }
        | Instruction::AndIpR { dst, .. } | Instruction::AndIpI { dst, .. } | Instruction::NotR { dst, .. }
        | Instruction::NotIp { dst } | Instruction::Ld { dst, .. } | Instruction::Ldi { dst, .. }
        | Instruction::Ldr { dst, .. } | Instruction::Lea { dst, .. } => Some(dst),
        _ => None,
    }
}

/// The condition codes follow every result written to a register: after an
/// instruction that writes one, `n`, `z` and `p` tell whether the value
/// written, read as a signed number, is negative, zero or positive; every
/// other instruction leaves them as they were.
pub proof fn lemma_condition_codes_follow_results(m: MachineModel, inst: Instruction)
    requires
        registers_in_range(inst),
        m.regs.len() == 8,
    ensures
        result_register(inst) matches Some(r) ==> {
            let m2 = execute_spec(m, inst);
            let v = m2.regs[r as int];
            &&& m2.n == ((v as i16) < 0)
            &&& m2.z == (v == 0)
            &&& m2.p == ((v as i16) > 0)
        },
        result_register(inst) is None ==> {
            let m2 = execute_spec(m, inst);
            m2.n == m.n && m2.z == m.z && m2.p == m.p
        },
{
}

/// A signed 8-bit immediate, widened to a word as the machine adds it.
proof fn lemma_widen8(a: u16, imm: i8)
    ensures
        add16(a, imm as i16 as u16) as int == (a as int + imm as int) % 65536,
{
    assert(imm as i16 as u16 == (if imm < 0 { 65536 + imm } else { imm as int })) by (bit_vector);
}

/// A signed 16-bit immediate, as the machine adds it to a word.
proof fn lemma_widen16(a: u16, imm: i16)
    ensures
        add16(a, imm as u16) as int == (a as int + imm as int) % 65536,
{
    assert(imm as u16 == (if imm < 0 { 65536 + imm } else { imm as int })) by (bit_vector);
}

/// Immediates are signed: an addition adds the immediate as a signed
/// number, and loads, stores, address computations, branches and calls
/// reach the address that many words, forwards or backwards, from the
/// counter or the base register, all modulo 2^16. A taken branch goes
/// there, and a branch is taken exactly when one of the flags it tests is
/// set.
pub proof fn lemma_signed_immediates(m: MachineModel, inst: Instruction)
    requires
        registers_in_range(inst),
        m.regs.len() == 8,
    ensures
        inst matches Instruction::AddRI { dst, src1, imm } ==>
            execute_spec(m, inst).regs[dst as int] as int == (m.regs[src1 as int] as int + imm as int) % 65536,
        inst matches Instruction::AddIpI { dst, imm } ==>
            execute_spec(m, inst).regs[dst as int] as int == (m.regs[dst as int] as int + imm as int) % 65536,
        inst matches Instruction::Lea { dst, imm } ==>
            execute_spec(m, inst).regs[dst as int] as int == (m.pc as int + imm as int) % 65536,
        inst matches Instruction::Ld { dst, imm } ==>
            execute_spec(m, inst).regs[dst as int] == m.memory[(m.pc as int + imm as int) % 65536],
        inst matches Instruction::Ldr { dst, base, imm } ==>
            execute_spec(m, inst).regs[dst as int] == m.memory[(m.regs[base as int] as int + imm as int) % 65536],
        inst matches Instruction::St { src, imm } ==>
            execute_spec(m, inst).memory == m.memory.update((m.pc as int + imm as int) % 65536, m.regs[src as int]),
        inst matches Instruction::Str { src, base, imm } ==>
            execute_spec(m, inst).memory == m.memory.update((m.regs[base as int] as int + imm as int) % 65536, m.regs[src as int]),
        inst matches Instruction::Br { n, z, p, imm } ==>
            execute_spec(m, inst).pc as int == if (n && m.n) || (z && m.z) || (p && m.p) {
                (m.pc as int + imm as int) % 65536
            } else {
                m.pc as int
            },
        inst matches Instruction::Jsr { imm } ==>
            execute_spec(m, inst).pc as int == (m.pc as int + imm as int) % 65536 && execute_spec(m, inst).regs[7] == m.pc,
{
    match inst {
        Instruction::AddRI { dst, src1, imm } => { lemma_widen8(m.regs[src1 as int], imm); },
        Instruction::AddIpI { dst, imm } => { lemma_widen8(m.regs[dst as int], imm); },
        Instruction::Lea { dst, imm } => { lemma_widen16(m.pc, imm); },
        Instruction::Ld { dst, imm } => { lemma_widen16(m.pc, imm); },
        Instruction::Ldr { dst, base, imm } => { lemma_widen16(m.regs[base as int], imm); },
        Instruction::St { src, imm } => { lemma_widen16(m.pc, imm); },
        Instruction::Str { src, base, imm } => { lemma_widen16(m.regs[base as int], imm); },
        Instruction::Br { imm, .. } => { lemma_widen16(m.pc, imm); },
        Instruction::Jsr { imm } => { lemma_widen16(m.pc, imm); },
        _ => {},
    }
}

} // verus!
