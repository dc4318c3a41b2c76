use vstd::prelude::*;

verus! {

/// A decoded Bob-16 instruction.
#[derive(Debug, Clone, Copy, PartialEq, Eq, Structural)]
pub enum Instruction {
    Nop,
    AddRR { dst: u8, src1: u8, src2: u8 },
    AddRI { dst: u8, src1: u8, imm: i8 },
    AddIpR { dst: u8, src: u8 },
    AddIpI { dst: u8, imm: i8 },
    AndRR { dst: u8, src1: u8, src2: u8 },
    AndRI { dst: u8, src1: u8, imm: i8 },
    AndIpR { dst: u8, src: u8 },
    AndIpI { dst: u8, imm: i8 },
    NotR { dst: u8, src: u8 },
    NotIp { dst: u8 },
    Ld { dst: u8, imm: i16 },
    Ldi { dst: u8, imm: i16 },
    Ldr { dst: u8, base: u8, imm: i16 },
    St { src: u8, imm: i16 },
    Sti { src: u8, imm: i16 },
    Str { src: u8, base: u8, imm: i16 },
    Br { n: bool, z: bool, p: bool, imm: i16 },
    Jmp { src: u8 },
    Jsr { imm: i16 },
    JsrR { src: u8 },
    Lea { dst: u8, imm: i16 },
    Ret,
    Trap { vector: u8 },
}

/// The instruction that the word `v` encodes. The top four bits are the opcode;
/// register numbers are three-bit fields and immediates are two's complement
/// fields of the widths below.
pub open spec fn decode(v: u16) -> Instruction {
    let op = field(v, 15, 12);
    let r9 = field(v, 11, 9) as u8;
    let r4 = field(v, 6, 4) as u8;
    let mode = field(v, 8, 7);
    let off9 = signed(field(v, 8, 0), 9) as i16;
    let off6 = signed(field(v, 5, 0), 6) as i16;
    if op == 0 {
        Instruction::Nop
    } else if op == 1 || op == 2 {
        let is_add = op == 1;
        if mode == 0 {
            let src2 = field(v, 3, 1) as u8;
            if is_add { Instruction::AddRR { dst: r9, src1: r4, src2 } } else { Instruction::AndRR { dst: r9, src1: r4, src2 } }
        } else if mode == 1 {
            let imm = signed(field(v, 3, 0), 4) as i8;
            if is_add { Instruction::AddRI { dst: r9, src1: r4, imm } } else { Instruction::AndRI { dst: r9, src1: r4, imm } }
        } else if mode == 2 {
            if is_add { Instruction::AddIpR { dst: r9, src: r4 } } else { Instruction::AndIpR { dst: r9, src: r4 } }
        } else {
            let imm = signed(field(v, 6, 0), 7) as i8;
            if is_add { Instruction::AddIpI { dst: r9, imm } } else { Instruction::AndIpI { dst: r9, imm } }
        }
    } else if op == 3 {
        if field(v, 8, 8) == 0 {
            Instruction::NotR { dst: r9, src: field(v, 7, 5) as u8 }
        } else {
            Instruction::NotIp { dst: r9 }
        }
    } else if op == 4 {
        Instruction::Ld { dst: r9, imm: off9 }
    } else if op == 5 {
        Instruction::Ldi { dst: r9, imm: off9 }
    } else if op == 6 {
        Instruction::Ldr { dst: r9, base: field(v, 8, 6) as u8, imm: off6 }
    } else if op == 7 {
        Instruction::St { src: r9, imm: off9 }
    } else if op == 8 {
        Instruction::Sti { src: r9, imm: off9 }
    } else if op == 9 {
        Instruction::Str { src: r9, base: field(v, 8, 6) as u8, imm: off6 }
    } else if op == 10 {
        Instruction::Br {
            n: field(v, 11, 11) == 1,
            z: field(v, 10, 10) == 1,
            p: field(v, 9, 9) == 1,
            imm: off9,
        }
    } else if op == 11 {
        Instruction::Jmp { src: r9 }
    } else if op == 12 {
        if field(v, 11, 11) == 0 {
            Instruction::Jsr { imm: signed(field(v, 10, 0), 11) as i16 }
        } else {
            Instruction::JsrR { src: field(v, 10, 8) as u8 }
        }
    } else if op == 13 {
        Instruction::Lea { dst: r9, imm: off9 }
    } else if op == 14 {
        Instruction::Ret
    } else {
        Instruction::Trap { vector: field(v, 11, 8) as u8 }
    }
}

/// Every register field of a decoded instruction names one of the eight registers.
pub open spec fn registers_in_range(i: Instruction) -> bool {
    match i {
        Instruction::AddRR { dst, src1, src2 } | Instruction::AndRR { dst, src1, src2 } => dst < 8 && src1 < 8 && src2 < 8,
        Instruction::AddRI { dst, src1, .. } | Instruction::AndRI { dst, src1, .. } => dst < 8 && src1 < 8,
        Instruction::AddIpR { dst, src } | Instruction::AndIpR { dst, src } | Instruction::NotR { dst, src } => dst < 8 && src < 8,
        Instruction::AddIpI { dst, .. } | Instruction::AndIpI { dst, .. } | Instruction::NotIp { dst } => dst < 8,
        Instruction::Ld { dst, .. } | Instruction::Ldi { dst, .. } | Instruction::Lea { dst, .. } => dst < 8,
        Instruction::Ldr { dst, base, .. } => dst < 8 && base < 8,
        Instruction::St { src, .. } | Instruction::Sti { src, .. } | Instruction::Jmp { src } | Instruction::JsrR { src } => src < 8,
        Instruction::Str { src, base, .. } => src < 8 && base < 8,
        _ => true,
    }
}

/// Decoding always yields register numbers below eight.
pub proof fn lemma_decode_registers(v: u16)
    ensures
        registers_in_range(decode(v)),
{
    assert(field(v, 11, 9) < 8 && field(v, 6, 4) < 8 && field(v, 3, 1) < 8 && field(v, 7, 5) < 8
        && field(v, 8, 6) < 8 && field(v, 10, 8) < 8) by (bit_vector);
}

impl From<u16> for Instruction {
    fn from(value: u16) -> (r: Self)
        ensures
            r == decode(value),
    {
        let opcode = bits(value, 15, 12);
        let dst = bits(value, 11, 9) as u8;
        if opcode == 0 {
            Self::Nop
        } else if opcode == 1 || opcode == 2 {
            let is_add = opcode == 1;
            let mode = bits(value, 8, 7);
            if mode == 0 {
                let src1 = bits(value, 6, 4) as u8;
                let src2 = bits(value, 3, 1) as u8;
                if is_add { Self::AddRR { dst, src1, src2 } } else { Self::AndRR { dst, src1, src2 } }
            } else if mode == 1 {
                let src1 = bits(value, 6, 4) as u8;
                let imm = sext(bits(value, 3, 0), 4) as i8;
                if is_add { Self::AddRI { dst, src1, imm } } else { Self::AndRI { dst, src1, imm } }
            } else if mode == 2 {
                let src = bits(value, 6, 4) as u8;
                if is_add { Self::AddIpR { dst, src } } else { Self::AndIpR { dst, src } }
            } else {
                let imm = sext(bits(value, 6, 0), 7) as i8;
                if is_add { Self::AddIpI { dst, imm } } else { Self::AndIpI { dst, imm } }
            }
        } else if opcode == 3 {
            if bits(value, 8, 8) == 0 {
                Self::NotR { dst, src: bits(value, 7, 5) as u8 }
            } else {
                Self::NotIp { dst }
            }
        } else if opcode == 4 {
            Self::Ld { dst, imm: sext(bits(value, 8, 0), 9) }
        } else if opcode == 5 {
            Self::Ldi { dst, imm: sext(bits(value, 8, 0), 9) }
        } else if opcode == 6 {
            Self::Ldr { dst, base: bits(value, 8, 6) as u8, imm: sext(bits(value, 5, 0), 6) }
        } else if opcode == 7 {
            Self::St { src: dst, imm: sext(bits(value, 8, 0), 9) }
        } else if opcode == 8 {
            Self::Sti { src: dst, imm: sext(bits(value, 8, 0), 9) }
        } else if opcode == 9 {
            Self::Str { src: dst, base: bits(value, 8, 6) as u8, imm: sext(bits(value, 5, 0), 6) }
        } else if opcode == 10 {
            let n = bits(value, 11, 11) == 1;
            let z = bits(value, 10, 10) == 1;
            let p = bits(value, 9, 9) == 1;
            Self::Br { n, z, p, imm: sext(bits(value, 8, 0), 9) }
        } else if opcode == 11 {
            Self::Jmp { src: dst }
        } else if opcode == 12 {
            if bits(value, 11, 11) == 0 {
                Self::Jsr { imm: sext(bits(value, 10, 0), 11) }
            } else {
                Self::JsrR { src: bits(value, 10, 8) as u8 }
            }
        } else if opcode == 13 {
            Self::Lea { dst, imm: sext(bits(value, 8, 0), 9) }
        } else if opcode == 14 {
            Self::Ret
        } else {
            Self::Trap { vector: bits(value, 11, 8) as u8 }
        }
    }
}

impl vstd::std_specs::convert::FromSpecImpl<u16> for Instruction {
    open spec fn obeys_from_spec() -> bool {
        true
    }

    open spec fn from_spec(v: u16) -> Instruction {
        decode(v)
    }
}

/// The low `width` bits of `val >> lo`, where the field spans bits `hi` down to `lo`.
pub open spec fn field(val: u16, hi: u16, lo: u16) -> u16 {
    ((val >> lo) & (((1u32 << ((hi - lo + 1) as u32)) - 1) as u16)) as u16
}

/// The value of the `width`-bit two's complement number held in the low bits of `val`.
pub open spec fn signed(val: u16, width: u16) -> int {
    if (val as int) < (1u32 << ((width - 1) as u32)) as int {
        val as int
    } else {
        val as int - (1u32 << (width as u32)) as int
    }
}

fn bits(val: u16, hi: u16, lo: u16) -> (r: u16)
    requires
        lo <= hi <= 15,
        hi - lo + 1 <= 11,
    ensures
        r == field(val, hi, lo),
        r < (1u32 << ((hi - lo + 1) as u32)),
{
    let w = hi - lo + 1;
    assert(1u16 << w >= 1) by (bit_vector)
        requires
            1 <= w <= 11,
    ;
    let r = (val >> lo) & ((1u16 << w) - 1);
    assert(r == field(val, hi, lo) && r < (1u32 << (w as u32))) by (bit_vector)
        requires
            r == (val >> lo) & (((1u16 << w) - 1) as u16),
            w == hi - lo + 1,
            1 <= w <= 11,
            lo <= 15,
    ;
    r
}

fn sext(val: u16, width: u16) -> (r: i16)
    requires
        1 <= width <= 11,
        val < (1u32 << (width as u32)),
    ensures
        r as int == signed(val, width),
{
    let shift = 16 - width;
    let r = ((val << shift) as i16) >> shift;
    assert(r as int == signed(val, width)) by (bit_vector)
        requires
            r == ((val << shift) as i16) >> shift,
            shift == 16 - width,
            1 <= width <= 11,
            val < (1u32 << (width as u32)),
    ;
    r
}

} // verus!
