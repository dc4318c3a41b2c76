//! The second pass: each source line becomes its words, and each label operand
//! a relocation that the linker fills in.
use vstd::prelude::*;
use crate::bobj::bobject::{BobjectFile, Relocation, RelocationKind, RelocationModel};
use super::parser::{ContentModel, InstrModel, LineContent, Operand, OperandModel, ParsedInstr, SourceLine, SourceLineModel};
use super::pass1::LayoutResult;
use crate::bob16::inst::{Instruction, decode, field, signed};

verus! {

/// The bits of a relocated field: the whole word, or the low 9 or 11 bits.
pub open spec fn field_mask(kind: RelocationKind) -> u16 {
    match kind {
        RelocationKind::Abs16 => 0xFFFF,
        RelocationKind::PcRel9 => 0x01FF,
        RelocationKind::PcRel11 => 0x07FF,
    }
}

/// An operand's contribution to its word: an immediate, truncated to the field;
/// nothing for a label, which the linker fills in.
pub open spec fn operand_bits(op: OperandModel, kind: RelocationKind) -> u16 {
    match op {
        OperandModel::Imm(i) => (i as i16 as u16) & field_mask(kind),
        OperandModel::Label(_) => 0,
    }
}

/// The relocation that an operand at `offset` asks for: one for a label, none
/// for an immediate.
pub open spec fn operand_relocs(op: OperandModel, kind: RelocationKind, offset: usize) -> Seq<RelocationModel> {
    match op {
        OperandModel::Imm(_) => Seq::empty(),
        OperandModel::Label(l) => seq![RelocationModel { site: offset as u16, kind, name: l }],
    }
}

/// The machine word of an instruction: the opcode in the top four bits, then
/// the register and mode fields, then the immediate or operand field.
pub open spec fn instr_word(i: InstrModel) -> u16 {
    match i {
        InstrModel::Nop => 0x0000,
        InstrModel::AddRR { dst, src1, src2 } => 0x1000 | (dst as u16) << 9 | (src1 as u16) << 4 | (src2 as u16) << 1,
        InstrModel::AddRI { dst, src1, imm } => 0x1000 | (dst as u16) << 9 | 0x0080 | (src1 as u16) << 4 | (imm as i16 as u16 & 0xF),
        InstrModel::AddIpR { dst, src } => 0x1000 | (dst as u16) << 9 | 0x0100 | (src as u16) << 4,
        InstrModel::AddIpI { dst, imm } => 0x1000 | (dst as u16) << 9 | 0x0180 | (imm as i16 as u16 & 0x7F),
        InstrModel::AndRR { dst, src1, src2 } => 0x2000 | (dst as u16) << 9 | (src1 as u16) << 4 | (src2 as u16) << 1,
        InstrModel::AndRI { dst, src1, imm } => 0x2000 | (dst as u16) << 9 | 0x0080 | (src1 as u16) << 4 | (imm as i16 as u16 & 0xF),
        InstrModel::AndIpR { dst, src } => 0x2000 | (dst as u16) << 9 | 0x0100 | (src as u16) << 4,
        InstrModel::AndIpI { dst, imm } => 0x2000 | (dst as u16) << 9 | 0x0180 | (imm as i16 as u16 & 0x7F),
        InstrModel::NotR { dst, src } => 0x3000 | (dst as u16) << 9 | (src as u16) << 5,
        InstrModel::NotIp { dst } => 0x3000 | (dst as u16) << 9 | 0x0100,
        InstrModel::Ld { dst, target } => 0x4000 | (dst as u16) << 9 | operand_bits(target, RelocationKind::PcRel9),
        InstrModel::Ldi { dst, target } => 0x5000 | (dst as u16) << 9 | operand_bits(target, RelocationKind::PcRel9),
        InstrModel::Ldr { dst, base, imm } => 0x6000 | (dst as u16) << 9 | (base as u16) << 6 | (imm as i16 as u16 & 0x3F),
        InstrModel::St { src, target } => 0x7000 | (src as u16) << 9 | operand_bits(target, RelocationKind::PcRel9),
        InstrModel::Sti { src, target } => 0x8000 | (src as u16) << 9 | operand_bits(target, RelocationKind::PcRel9),
        InstrModel::Str { src, base, imm } => 0x9000 | (src as u16) << 9 | (base as u16) << 6 | (imm as i16 as u16 & 0x3F),
        InstrModel::Br { n, z, p, target } => 0xA000 | (if n { 0x0800u16 } else { 0 }) | (if z { 0x0400u16 } else { 0 }) | (if p { 0x0200u16 } else { 0 }) | operand_bits(target, RelocationKind::PcRel9),
        InstrModel::Jmp { src } => 0xB000 | (src as u16) << 9,
        InstrModel::Jsr { target } => 0xC000 | operand_bits(target, RelocationKind::PcRel11),
        InstrModel::JsrR { src } => 0xC800u16 | (src as u16) << 8,
        InstrModel::Lea { dst, target } => 0xD000 | (dst as u16) << 9 | operand_bits(target, RelocationKind::PcRel9),
        InstrModel::Ret => 0xE000,
        InstrModel::Trap { vector } => 0xF000 | (vector as u16) << 8,
    }
}

/// The relocations of an instruction at `offset`.
pub open spec fn instr_relocs(i: InstrModel, offset: usize) -> Seq<RelocationModel> {
    match i {
        InstrModel::Ld { target, .. } | InstrModel::Ldi { target, .. } | InstrModel::St { target, .. }
        | InstrModel::Sti { target, .. } | InstrModel::Br { target, .. } | InstrModel::Lea { target, .. } =>
            operand_relocs(target, RelocationKind::PcRel9, offset),
        InstrModel::Jsr { target } => operand_relocs(target, RelocationKind::PcRel11, offset),
        _ => Seq::empty(),
    }
}

/// The words of a line content.
pub open spec fn content_words_of(c: ContentModel) -> Seq<u16> {
    match c {
        ContentModel::Instr(i) => seq![instr_word(i)],
        ContentModel::FillDirective(op) => seq![operand_bits(op, RelocationKind::Abs16)],
        ContentModel::StringDirective(s) => s.map_values(|ch: char| ch as u8 as u16).push(0),
        ContentModel::GlobalDirective(_) => Seq::empty(),
    }
}

/// The relocations of a line content at `offset`.
pub open spec fn content_relocs(c: ContentModel, offset: usize) -> Seq<RelocationModel> {
    match c {
        ContentModel::Instr(i) => instr_relocs(i, offset),
        ContentModel::FillDirective(op) => operand_relocs(op, RelocationKind::Abs16, offset),
        _ => Seq::empty(),
    }
}

pub open spec fn line_words(l: SourceLineModel) -> Seq<u16> {
    match l.content {
        Some(c) => content_words_of(c),
        None => Seq::empty(),
    }
}

pub open spec fn line_relocs(l: SourceLineModel, offset: usize) -> Seq<RelocationModel> {
    match l.content {
        Some(c) => content_relocs(c, offset),
        None => Seq::empty(),
    }
}

/// The words of the first `k` lines, in order.
pub open spec fn words_of_lines(lines: Seq<SourceLineModel>, k: nat) -> Seq<u16>
    decreases k,
{
    if k == 0 {
        Seq::empty()
    } else {
        words_of_lines(lines, (k - 1) as nat) + line_words(lines[k - 1])
    }
}

/// The relocations of the first `k` lines, each at its offset.
pub open spec fn relocs_of_lines(lines: Seq<SourceLineModel>, offsets: Seq<usize>, k: nat) -> Seq<RelocationModel>
    decreases k,
{
    if k == 0 {
        Seq::empty()
    } else {
        relocs_of_lines(lines, offsets, (k - 1) as nat) + line_relocs(lines[k - 1], offsets[k - 1])
    }
}

/// The number of lines that are assembled: as many as have an offset.
pub open spec fn paired(lines: Seq<SourceLine>, offsets: Seq<usize>) -> nat {
    if lines.len() < offsets.len() { lines.len() } else { offsets.len() }
}

fn resolve_operand(operand: &Operand, kind: RelocationKind, offset: usize, relocations: &mut Vec<Relocation>) -> (bits: u16)
    ensures
        bits == operand_bits(operand@, kind),
        final(relocations)@.map_values(|r: Relocation| r@) == old(relocations)@.map_values(|r: Relocation| r@)
            + operand_relocs(operand@, kind, offset),
{
    let ghost before = relocations@;
    match operand {
        Operand::Imm(i) => match kind {
            RelocationKind::Abs16 => (*i as i16 as u16) & 0xFFFF,
            RelocationKind::PcRel9 => (*i as i16 as u16) & 0x01FF,
            RelocationKind::PcRel11 => (*i as i16 as u16) & 0x07FF,
        },
        Operand::Label(l) => {
            relocations.push(Relocation { site: offset as u16, kind, name: l.clone() });
            assert(relocations@.map_values(|r: Relocation| r@) =~= before.map_values(|r: Relocation| r@)
                + operand_relocs(operand@, kind, offset));
            0
        },
    }
}

fn encode_instr(inst: &ParsedInstr, offset: usize, relocations: &mut Vec<Relocation>) -> (w: u16)
    ensures
        w == instr_word(inst@),
        final(relocations)@.map_values(|r: Relocation| r@) == old(relocations)@.map_values(|r: Relocation| r@)
            + instr_relocs(inst@, offset),
{
    let ghost before = relocations@.map_values(|r: Relocation| r@);
    let w = match inst {
        ParsedInstr::Nop => 0x0000,
        ParsedInstr::AddRR { dst, src1, src2 } => 0x1000 | (*dst as u16) << 9 | (*src1 as u16) << 4 | (*src2 as u16) << 1,
        ParsedInstr::AddRI { dst, src1, imm } => 0x1000 | (*dst as u16) << 9 | 0x0080 | (*src1 as u16) << 4 | (*imm as i16 as u16 & 0xF),
        ParsedInstr::AddIpR { dst, src } => 0x1000 | (*dst as u16) << 9 | 0x0100 | (*src as u16) << 4,
        ParsedInstr::AddIpI { dst, imm } => 0x1000 | (*dst as u16) << 9 | 0x0180 | (*imm as i16 as u16 & 0x7F),
        ParsedInstr::AndRR { dst, src1, src2 } => 0x2000 | (*dst as u16) << 9 | (*src1 as u16) << 4 | (*src2 as u16) << 1,
        ParsedInstr::AndRI { dst, src1, imm } => 0x2000 | (*dst as u16) << 9 | 0x0080 | (*src1 as u16) << 4 | (*imm as i16 as u16 & 0xF),
        ParsedInstr::AndIpR { dst, src } => 0x2000 | (*dst as u16) << 9 | 0x0100 | (*src as u16) << 4,
        ParsedInstr::AndIpI { dst, imm } => 0x2000 | (*dst as u16) << 9 | 0x0180 | (*imm as i16 as u16 & 0x7F),
        ParsedInstr::NotR { dst, src } => 0x3000 | (*dst as u16) << 9 | (*src as u16) << 5,
        ParsedInstr::NotIp { dst } => 0x3000 | (*dst as u16) << 9 | 0x0100,
        ParsedInstr::Ld { dst, target } => {
            let imm = resolve_operand(target, RelocationKind::PcRel9, offset, relocations);
            0x4000 | (*dst as u16) << 9 | imm
        },
        ParsedInstr::Ldi { dst, target } => {
            let imm = resolve_operand(target, RelocationKind::PcRel9, offset, relocations);
            0x5000 | (*dst as u16) << 9 | imm
        },
        ParsedInstr::Ldr { dst, base, imm } => 0x6000 | (*dst as u16) << 9 | (*base as u16) << 6 | (*imm as i16 as u16 & 0x3F),
        ParsedInstr::St { src, target } => {
            let imm = resolve_operand(target, RelocationKind::PcRel9, offset, relocations);
            0x7000 | (*src as u16) << 9 | imm
        },
        ParsedInstr::Sti { src, target } => {
            let imm = resolve_operand(target, RelocationKind::PcRel9, offset, relocations);
            0x8000 | (*src as u16) << 9 | imm
        },
        ParsedInstr::Str { src, base, imm } => 0x9000 | (*src as u16) << 9 | (*base as u16) << 6 | (*imm as i16 as u16 & 0x3F),
        ParsedInstr::Br { n, z, p, target } => {
            let imm = resolve_operand(target, RelocationKind::PcRel9, offset, relocations);
            0xA000 | (if *n { 0x0800u16 } else { 0 }) | (if *z { 0x0400u16 } else { 0 }) | (if *p { 0x0200u16 } else { 0 }) | imm
        },
        ParsedInstr::Jmp { src } => 0xB000 | (*src as u16) << 9,
        ParsedInstr::Jsr { target } => {
            let imm = resolve_operand(target, RelocationKind::PcRel11, offset, relocations);
            0xC000 | imm
        },
        ParsedInstr::JsrR { src } => 0xC800u16 | (*src as u16) << 8,
        ParsedInstr::Lea { dst, target } => {
            let imm = resolve_operand(target, RelocationKind::PcRel9, offset, relocations);
            0xD000 | (*dst as u16) << 9 | imm
        },
        ParsedInstr::Ret => 0xE000,
        ParsedInstr::Trap { vector } => 0xF000 | (*vector as u16) << 8,
    };
    proof {
        match inst@ {
            InstrModel::Ld { .. } | InstrModel::Ldi { .. } | InstrModel::St { .. } | InstrModel::Sti { .. }
            | InstrModel::Br { .. } | InstrModel::Lea { .. } | InstrModel::Jsr { .. } => {},
            _ => {
                assert(relocations@.map_values(|r: Relocation| r@) =~= before + instr_relocs(inst@, offset));
            },
        }
    }
    w
}

/// Assembles the source lines into an object file: the symbols of the layout,
/// the words of each line in order, and a relocation for each label operand at
/// the offset of its line. Lines without an offset are left out.
pub fn generate_bobject(ast: Vec<SourceLine>, layout: LayoutResult) -> (f: BobjectFile)
    ensures
        f.symbols@ == layout.symbols@,
        f.words@ == words_of_lines(ast@.map_values(|l: SourceLine| l@), paired(ast@, layout.offsets@)),
        f@.relocations == relocs_of_lines(
            ast@.map_values(|l: SourceLine| l@),
            layout.offsets@,
            paired(ast@, layout.offsets@),
        ),
{
    let ghost lines = ast@.map_values(|l: SourceLine| l@);
    let count = if ast.len() < layout.offsets.len() { ast.len() } else { layout.offsets.len() };
    let mut relocations: Vec<Relocation> = Vec::new();
    let mut words: Vec<u16> = Vec::new();
    let mut i: usize = 0;
    assert(relocations@.map_values(|r: Relocation| r@) =~= Seq::<RelocationModel>::empty());
    while i < count
        invariant
            count == paired(ast@, layout.offsets@),
            i <= count,
            lines == ast@.map_values(|l: SourceLine| l@),
            words@ == words_of_lines(lines, i as nat),
            relocations@.map_values(|r: Relocation| r@) == relocs_of_lines(lines, layout.offsets@, i as nat),
        decreases count - i,
    {
        let offset = layout.offsets[i];
        let line = &ast[i];
        assert(lines[i as int] == line@);
        match &line.content {
            Some(content) => match content {
                LineContent::Instr(inst) => {
                    let w = encode_instr(inst, offset, &mut relocations);
                    words.push(w);
                },
                LineContent::FillDirective(operand) => {
                    let w = resolve_operand(operand, RelocationKind::Abs16, offset, &mut relocations);
                    words.push(w);
                },
                LineContent::StringDirective(string) => {
                    let chars = crate::text::chars_of(string.as_str());
                    let ghost start = words@;
                    let mut j: usize = 0;
                    while j < chars.len()
                        invariant
                            j <= chars@.len(),
                            chars@ == string@,
                            words@ == start + chars@.take(j as int).map_values(|ch: char| ch as u8 as u16),
                        decreases chars@.len() - j,
                    {
                        words.push(chars[j] as u8 as u16);
                        assert(chars@.take(j + 1) =~= chars@.take(j as int).push(chars@[j as int]));
                        assert(words@ =~= start + chars@.take(j + 1).map_values(|ch: char| ch as u8 as u16));
                        j += 1;
                    }
                    words.push(0);
                    assert(chars@.take(j as int) =~= chars@);
                    assert(words@ =~= start + content_words_of(content@));
                },
                LineContent::GlobalDirective(_) => {},
            },
            None => {},
        }
        assert(words@ =~= words_of_lines(lines, (i + 1) as nat));
        assert(relocations@.map_values(|r: Relocation| r@) =~= relocs_of_lines(lines, layout.offsets@, (i + 1) as nat));
        i += 1;
    }
    BobjectFile { symbols: layout.symbols, relocations, words }
}

/// The immediate operand of a target, if it is not a label.
pub open spec fn target_imm(op: OperandModel) -> Option<i64> {
    match op {
        OperandModel::Imm(i) => Some(i),
        OperandModel::Label(_) => None,
    }
}

/// An instruction that the machine can execute as written: no label operands,
/// registers below eight, immediates within their fields and trap vectors below
/// sixteen.
pub open spec fn encodable(i: InstrModel) -> bool {
    match i {
        InstrModel::Nop | InstrModel::Ret => true,
        InstrModel::AddRR { dst, src1, src2 } | InstrModel::AndRR { dst, src1, src2 } => dst < 8 && src1 < 8 && src2 < 8,
        InstrModel::AddRI { dst, src1, imm } | InstrModel::AndRI { dst, src1, imm } => dst < 8 && src1 < 8 && -8 <= imm <= 7,
        InstrModel::AddIpR { dst, src } | InstrModel::AndIpR { dst, src } | InstrModel::NotR { dst, src } => dst < 8 && src < 8,
        InstrModel::AddIpI { dst, imm } | InstrModel::AndIpI { dst, imm } => dst < 8 && -64 <= imm <= 63,
        InstrModel::NotIp { dst } => dst < 8,
        InstrModel::Ld { dst, target } | InstrModel::Ldi { dst, target } | InstrModel::Lea { dst, target } =>
            dst < 8 && (target_imm(target) matches Some(v) && -256 <= v <= 255),
        InstrModel::St { src, target } | InstrModel::Sti { src, target } =>
            src < 8 && (target_imm(target) matches Some(v) && -256 <= v <= 255),
        InstrModel::Ldr { dst, base, imm } => dst < 8 && base < 8 && -32 <= imm <= 31,
        InstrModel::Str { src, base, imm } => src < 8 && base < 8 && -32 <= imm <= 31,
        InstrModel::Br { target, .. } => target_imm(target) matches Some(v) && -256 <= v <= 255,
        InstrModel::Jmp { src } | InstrModel::JsrR { src } => src < 8,
        InstrModel::Jsr { target } => target_imm(target) matches Some(v) && -1024 <= v <= 1023,
        InstrModel::Trap { vector } => vector < 16,
    }
}

/// The machine instruction that an encodable source instruction stands for.
pub open spec fn machine_instr(i: InstrModel) -> Instruction {
    match i {
        InstrModel::Nop => Instruction::Nop,
        InstrModel::AddRR { dst, src1, src2 } => Instruction::AddRR { dst, src1, src2 },
        InstrModel::AddRI { dst, src1, imm } => Instruction::AddRI { dst, src1, imm: imm as i8 },
        InstrModel::AddIpR { dst, src } => Instruction::AddIpR { dst, src },
        InstrModel::AddIpI { dst, imm } => Instruction::AddIpI { dst, imm: imm as i8 },
        InstrModel::AndRR { dst, src1, src2 } => Instruction::AndRR { dst, src1, src2 },
        InstrModel::AndRI { dst, src1, imm } => Instruction::AndRI { dst, src1, imm: imm as i8 },
        InstrModel::AndIpR { dst, src } => Instruction::AndIpR { dst, src },
        InstrModel::AndIpI { dst, imm } => Instruction::AndIpI { dst, imm: imm as i8 },
        InstrModel::NotR { dst, src } => Instruction::NotR { dst, src },
        InstrModel::NotIp { dst } => Instruction::NotIp { dst },
        InstrModel::Ld { dst, target } => Instruction::Ld { dst, imm: target_imm(target)->Some_0 as i16 },
        InstrModel::Ldi { dst, target } => Instruction::Ldi { dst, imm: target_imm(target)->Some_0 as i16 },
        InstrModel::Ldr { dst, base, imm } => Instruction::Ldr { dst, base, imm: imm as i16 },
        InstrModel::St { src, target } => Instruction::St { src, imm: target_imm(target)->Some_0 as i16 },
        InstrModel::Sti { src, target } => Instruction::Sti { src, imm: target_imm(target)->Some_0 as i16 },
        InstrModel::Str { src, base, imm } => Instruction::Str { src, base, imm: imm as i16 },
        InstrModel::Br { n, z, p, target } => Instruction::Br { n, z, p, imm: target_imm(target)->Some_0 as i16 },
        InstrModel::Jmp { src } => Instruction::Jmp { src },
        InstrModel::Jsr { target } => Instruction::Jsr { imm: target_imm(target)->Some_0 as i16 },
        InstrModel::JsrR { src } => Instruction::JsrR { src },
        InstrModel::Lea { dst, target } => Instruction::Lea { dst, imm: target_imm(target)->Some_0 as i16 },
        InstrModel::Ret => Instruction::Ret,
        InstrModel::Trap { vector } => Instruction::Trap { vector },
    }
}

proof fn lemma_signed_field(imm: i64, width: u16, f: u16)
    requires
        (width == 4 && -8 <= imm <= 7 && f == (imm as i16 as u16 & 0xF))
            || (width == 6 && -32 <= imm <= 31 && f == (imm as i16 as u16 & 0x3F))
            || (width == 7 && -64 <= imm <= 63 && f == (imm as i16 as u16 & 0x7F))
            || (width == 9 && -256 <= imm <= 255 && f == (imm as i16 as u16 & 0x1FF))
            || (width == 11 && -1024 <= imm <= 1023 && f == (imm as i16 as u16 & 0x7FF)),
    ensures
        signed(f, width) == imm,
        f < (1u32 << (width as u32)),
{
    assert(signed(f, width) == imm && f < (1u32 << (width as u32))) by (bit_vector)
        requires
            (width == 4 && -8 <= imm <= 7 && f == (imm as i16 as u16 & 0xF))
                || (width == 6 && -32 <= imm <= 31 && f == (imm as i16 as u16 & 0x3F))
                || (width == 7 && -64 <= imm <= 63 && f == (imm as i16 as u16 & 0x7F))
                || (width == 9 && -256 <= imm <= 255 && f == (imm as i16 as u16 & 0x1FF))
                || (width == 11 && -1024 <= imm <= 1023 && f == (imm as i16 as u16 & 0x7FF));
}

/// An operand with a label read as the immediate 0: the field that the
/// assembler leaves for the linker to fill.
pub open spec fn label_as_zero(op: OperandModel) -> OperandModel {
    match op {
        OperandModel::Label(_) => OperandModel::Imm(0),
        OperandModel::Imm(i) => OperandModel::Imm(i),
    }
}

/// The instruction with each label operand read as the immediate 0.
pub open spec fn labels_as_zero(i: InstrModel) -> InstrModel {
    match i {
        InstrModel::Ld { dst, target } => InstrModel::Ld { dst, target: label_as_zero(target) },
        InstrModel::Ldi { dst, target } => InstrModel::Ldi { dst, target: label_as_zero(target) },
        InstrModel::St { src, target } => InstrModel::St { src, target: label_as_zero(target) },
        InstrModel::Sti { src, target } => InstrModel::Sti { src, target: label_as_zero(target) },
        InstrModel::Br { n, z, p, target } => InstrModel::Br { n, z, p, target: label_as_zero(target) },
        InstrModel::Jsr { target } => InstrModel::Jsr { target: label_as_zero(target) },
        InstrModel::Lea { dst, target } => InstrModel::Lea { dst, target: label_as_zero(target) },
        other => other,
    }
}

/// An instruction with label operands is written as the one with 0 in
/// their place, and the machine decodes it so: a label operand's field
/// reads as the immediate 0 until the linker fills it.
pub proof fn lemma_decode_encode_labels(i: InstrModel)
    requires
        encodable(labels_as_zero(i)),
    ensures
        decode(instr_word(i)) == machine_instr(labels_as_zero(i)),
{
    assert forall|k: RelocationKind| #[trigger] operand_bits(OperandModel::Imm(0), k) == 0u16 by {
        let m = field_mask(k);
        assert((0i64 as i16 as u16) & m == 0u16) by (bit_vector);
    }
    assert forall|op: OperandModel, k: RelocationKind| #[trigger] operand_bits(label_as_zero(op), k) == operand_bits(op, k) by {
        if op is Label {
            assert(operand_bits(OperandModel::Imm(0), k) == 0u16);
        }
    }
    assert(instr_word(labels_as_zero(i)) == instr_word(i));
    lemma_decode_encode(labels_as_zero(i));
}

/// Running the assembler's encoding through the machine's decoder gives back
/// the instruction that was written, for every instruction without label
/// operands whose registers, immediates and vectors fit their fields.
pub proof fn lemma_decode_encode(i: InstrModel)
    requires
        encodable(i),
    ensures
        decode(instr_word(i)) == machine_instr(i),
{
    let w = instr_word(i);
    match i {
        InstrModel::Nop => {
            assert(w == 0);
            assert(field(w, 15, 12) == 0) by (bit_vector) requires w == 0u16;
            assert(decode(w) == Instruction::Nop);
            assert(decode(w) == machine_instr(i));
        },
        InstrModel::Ret => {
            assert(field(w, 15, 12) == 14) by (bit_vector) requires w == 0xE000u16;
            assert(decode(w) == machine_instr(i));
        },
        InstrModel::AddRR { dst: d, src1: s, src2: t } | InstrModel::AndRR { dst: d, src1: s, src2: t } => {
            let base: u16 = if i is AddRR { 0x1000 } else { 0x2000 };
            assert((base == 0x1000 ==> field(w, 15, 12) == 1) && (base == 0x2000 ==> field(w, 15, 12) == 2) && field(w, 8, 7) == 0 && field(w, 11, 9) == d
                && field(w, 6, 4) == s && field(w, 3, 1) == t) by (bit_vector)
                requires d < 8, s < 8, t < 8, base == 0x1000 || base == 0x2000,
                    w == base | (d as u16) << 9 | (s as u16) << 4 | (t as u16) << 1;
            assert(decode(w) == machine_instr(i));
        },
        InstrModel::AddRI { dst: d, src1: s, imm } | InstrModel::AndRI { dst: d, src1: s, imm } => {
            let base: u16 = if i is AddRI { 0x1000 } else { 0x2000 };
            let f = field(w, 3, 0);
            assert((base == 0x1000 ==> field(w, 15, 12) == 1) && (base == 0x2000 ==> field(w, 15, 12) == 2) && field(w, 8, 7) == 1 && field(w, 11, 9) == d
                && field(w, 6, 4) == s && f == (imm as i16 as u16 & 0xF)) by (bit_vector)
                requires d < 8, s < 8, base == 0x1000 || base == 0x2000,
                    w == base | (d as u16) << 9 | 0x0080 | (s as u16) << 4 | (imm as i16 as u16 & 0xF),
                    f == field(w, 3, 0);
            lemma_signed_field(imm, 4, f);
            assert(decode(w) == machine_instr(i));
        },
        InstrModel::AddIpR { dst: d, src: s } | InstrModel::AndIpR { dst: d, src: s } => {
            let base: u16 = if i is AddIpR { 0x1000 } else { 0x2000 };
            assert((base == 0x1000 ==> field(w, 15, 12) == 1) && (base == 0x2000 ==> field(w, 15, 12) == 2) && field(w, 8, 7) == 2 && field(w, 11, 9) == d
                && field(w, 6, 4) == s) by (bit_vector)
                requires d < 8, s < 8, base == 0x1000 || base == 0x2000,
                    w == base | (d as u16) << 9 | 0x0100 | (s as u16) << 4;
            assert(decode(w) == machine_instr(i));
        },
        InstrModel::AddIpI { dst: d, imm } | InstrModel::AndIpI { dst: d, imm } => {
            let base: u16 = if i is AddIpI { 0x1000 } else { 0x2000 };
            let f = field(w, 6, 0);
            assert((base == 0x1000 ==> field(w, 15, 12) == 1) && (base == 0x2000 ==> field(w, 15, 12) == 2) && field(w, 8, 7) == 3 && field(w, 11, 9) == d
                && f == (imm as i16 as u16 & 0x7F)) by (bit_vector)
                requires d < 8, base == 0x1000 || base == 0x2000,
                    w == base | (d as u16) << 9 | 0x0180 | (imm as i16 as u16 & 0x7F),
                    f == field(w, 6, 0);
            lemma_signed_field(imm, 7, f);
            assert(decode(w) == machine_instr(i));
        },
        InstrModel::NotR { dst: d, src: s } => {
            assert(field(w, 15, 12) == 3 && field(w, 8, 8) == 0 && field(w, 11, 9) == d && field(w, 7, 5) == s) by (bit_vector)
                requires d < 8, s < 8, w == 0x3000u16 | (d as u16) << 9 | (s as u16) << 5;
            assert(decode(w) == machine_instr(i));
        },
        InstrModel::NotIp { dst: d } => {
            assert(field(w, 15, 12) == 3 && field(w, 8, 8) == 1 && field(w, 11, 9) == d) by (bit_vector)
                requires d < 8, w == 0x3000u16 | (d as u16) << 9 | 0x0100;
            assert(decode(w) == machine_instr(i));
        },
        InstrModel::Ld { dst: d, target } | InstrModel::Ldi { dst: d, target } | InstrModel::Lea { dst: d, target }
        | InstrModel::St { src: d, target } | InstrModel::Sti { src: d, target } => {
            let base: u16 = if i is Ld { 0x4000 } else if i is Ldi { 0x5000 } else if i is Lea { 0xD000 }
                else if i is St { 0x7000 } else { 0x8000 };
            let imm = target_imm(target)->Some_0;
            let f = field(w, 8, 0);
            assert(field(w, 15, 12) == base / 0x1000 && field(w, 11, 9) == d && f == (imm as i16 as u16 & 0x1FF)) by (bit_vector)
                requires d < 8, base == 0x4000 || base == 0x5000 || base == 0xD000 || base == 0x7000 || base == 0x8000,
                    w == base | (d as u16) << 9 | (imm as i16 as u16 & 0x01FF),
                    f == field(w, 8, 0);
            lemma_signed_field(imm, 9, f);
            assert(decode(w) == machine_instr(i));
        },
        InstrModel::Ldr { dst: d, base: b, imm } | InstrModel::Str { src: d, base: b, imm } => {
            let base: u16 = if i is Ldr { 0x6000 } else { 0x9000 };
            let f = field(w, 5, 0);
            assert(field(w, 15, 12) == base / 0x1000 && field(w, 11, 9) == d && field(w, 8, 6) == b
                && f == (imm as i16 as u16 & 0x3F)) by (bit_vector)
                requires d < 8, b < 8, base == 0x6000 || base == 0x9000,
                    w == base | (d as u16) << 9 | (b as u16) << 6 | (imm as i16 as u16 & 0x3F),
                    f == field(w, 5, 0);
            lemma_signed_field(imm, 6, f);
            assert(decode(w) == machine_instr(i));
        },
        InstrModel::Br { n, z, p, target } => {
            let imm = target_imm(target)->Some_0;
            let f = field(w, 8, 0);
            let nb: u16 = if n { 0x0800 } else { 0 };
            let zb: u16 = if z { 0x0400 } else { 0 };
            let pb: u16 = if p { 0x0200 } else { 0 };
            assert(field(w, 15, 12) == 10 && (field(w, 11, 11) == 1) == (nb == 0x0800)
                && (field(w, 10, 10) == 1) == (zb == 0x0400) && (field(w, 9, 9) == 1) == (pb == 0x0200)
                && f == (imm as i16 as u16 & 0x1FF)) by (bit_vector)
                requires nb == 0x0800 || nb == 0, zb == 0x0400 || zb == 0, pb == 0x0200 || pb == 0,
                    w == 0xA000u16 | nb | zb | pb | (imm as i16 as u16 & 0x01FF),
                    f == field(w, 8, 0);
            lemma_signed_field(imm, 9, f);
            assert(decode(w) == machine_instr(i));
        },
        InstrModel::Jmp { src: s } => {
            assert(field(w, 15, 12) == 11 && field(w, 11, 9) == s) by (bit_vector)
                requires s < 8, w == 0xB000u16 | (s as u16) << 9;
            assert(decode(w) == machine_instr(i));
        },
        InstrModel::Jsr { target } => {
            let imm = target_imm(target)->Some_0;
            let f = field(w, 10, 0);
            assert(field(w, 15, 12) == 12 && field(w, 11, 11) == 0 && f == (imm as i16 as u16 & 0x7FF)) by (bit_vector)
                requires w == 0xC000u16 | (imm as i16 as u16 & 0x07FF), f == field(w, 10, 0);
            lemma_signed_field(imm, 11, f);
            assert(decode(w) == machine_instr(i));
        },
        InstrModel::JsrR { src: s } => {
            assert(field(w, 15, 12) == 12 && field(w, 11, 11) == 1 && field(w, 10, 8) == s) by (bit_vector)
                requires s < 8, w == 0xC800u16 | (s as u16) << 8;
            assert(decode(w) == machine_instr(i));
        },
        InstrModel::Trap { vector: v } => {
            assert(field(w, 15, 12) == 15 && field(w, 11, 8) == v) by (bit_vector)
                requires v < 16, w == 0xF000u16 | (v as u16) << 8;
            assert(decode(w) == machine_instr(i));
        },
    }
}

} // verus!
