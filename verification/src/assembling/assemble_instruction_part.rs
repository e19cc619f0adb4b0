//! Functions to create the building blocks of instructions, such as mod/rm byte
use vstd::prelude::*;

use crate::assembling::assembly::{
    is_64bit_reg, spec_is_16bit_reg, spec_is_32bit_reg, spec_is_64bit_reg, ImmediateValue, Operand, Register,
};
use crate::assembling::{AsmModel, CodeLabelPosition, IntermediateAssemblingResult, LabelType};
use crate::linking::elf::SegmentType;
use crate::linking::relocate::RelocationEntrie;
use crate::little_endian::{le_bytes, lemma_le_bytes_len, push_le_bytes};
use crate::string_map::lookup;

verus! {

/// The reg field of a mod/rm byte: a register or an opcode extension.
#[derive(Debug, Clone, Copy)]
pub enum RegValue {
    Register(Register),
    Extension(u8),
    Empty,
}

/// 4 bit representation of register: the most significant of the 4 bits is for REX.R
/// (or REX.B), the other 3 for the mod/rm byte
pub open spec fn spec_reg_bits(register: Register) -> u8 {
    match register {
        Register::RAX | Register::EAX | Register::AX | Register::AL => 0b0000,
        Register::RCX | Register::ECX | Register::CX | Register::CL => 0b0001,
        Register::RDX | Register::EDX | Register::DX | Register::DL => 0b0010,
        Register::RBX | Register::EBX | Register::BX | Register::BL => 0b0011,
        Register::RSP | Register::ESP | Register::SP | Register::AH | Register::SPL => 0b0100,
        Register::RBP | Register::EBP | Register::BP | Register::CH | Register::BPL => 0b0101,
        Register::RSI | Register::ESI | Register::SI | Register::DH | Register::SIL => 0b0110,
        Register::RDI | Register::EDI | Register::DI | Register::BH | Register::DIL => 0b0111,
        Register::R8 | Register::R8D | Register::R8W | Register::R8B => 0b1000,
        Register::R9 | Register::R9D | Register::R9W | Register::R9B => 0b1001,
        Register::R10 | Register::R10D | Register::R10W | Register::R10B => 0b1010,
        Register::R11 | Register::R11D | Register::R11W | Register::R11B => 0b1011,
        Register::R12 | Register::R12D | Register::R12W | Register::R12B => 0b1100,
        Register::R13 | Register::R13D | Register::R13W | Register::R13B => 0b1101,
        Register::R14 | Register::R14D | Register::R14W | Register::R14B => 0b1110,
        Register::R15 | Register::R15D | Register::R15W | Register::R15B => 0b1111,
    }
}

/// returns 4 bit representation of register
/// most significant of the 4 bits is for REX.R other 3 for MOD R/M .REG
#[allow(non_snake_case)]
fn reg_to_XREG_bits(register: &Register) -> (r: u8)
    ensures
        r == spec_reg_bits(*register),
{
    reveal(spec_reg_bits);
    match register {
        Register::RAX | Register::EAX | Register::AX | Register::AL => 0b0000,
        Register::RCX | Register::ECX | Register::CX | Register::CL => 0b0001,
        Register::RDX | Register::EDX | Register::DX | Register::DL => 0b0010,
        Register::RBX | Register::EBX | Register::BX | Register::BL => 0b0011,
        Register::RSP | Register::ESP | Register::SP | Register::AH | Register::SPL => 0b0100,
        Register::RBP | Register::EBP | Register::BP | Register::CH | Register::BPL => 0b0101,
        Register::RSI | Register::ESI | Register::SI | Register::DH | Register::SIL => 0b0110,
        Register::RDI | Register::EDI | Register::DI | Register::BH | Register::DIL => 0b0111,
        Register::R8 | Register::R8D | Register::R8W | Register::R8B => 0b1000,
        Register::R9 | Register::R9D | Register::R9W | Register::R9B => 0b1001,
        Register::R10 | Register::R10D | Register::R10W | Register::R10B => 0b1010,
        Register::R11 | Register::R11D | Register::R11W | Register::R11B => 0b1011,
        Register::R12 | Register::R12D | Register::R12W | Register::R12B => 0b1100,
        Register::R13 | Register::R13D | Register::R13W | Register::R13B => 0b1101,
        Register::R14 | Register::R14D | Register::R14W | Register::R14B => 0b1110,
        Register::R15 | Register::R15D | Register::R15W | Register::R15B => 0b1111,
    }
}

pub open spec fn spec_to_byte(val: bool) -> u8 {
    if val { 1 } else { 0 }
}

/// Converts bool to u8
fn to_byte(val: bool) -> (r: u8)
    ensures
        r == spec_to_byte(val),
{
    if val { 1 } else { 0 }
}

pub open spec fn spec_reg64_to_reg32(reg: Register) -> Register {
    match reg {
        Register::RAX => Register::EAX,
        Register::RBX => Register::EBX,
        Register::RCX => Register::ECX,
        Register::RDX => Register::EDX,
        Register::RSI => Register::ESI,
        Register::RDI => Register::EDI,
        Register::RSP => Register::ESP,
        Register::RBP => Register::EBP,
        Register::R8 => Register::R8D,
        Register::R9 => Register::R9D,
        Register::R10 => Register::R10D,
        Register::R11 => Register::R11D,
        Register::R12 => Register::R12D,
        Register::R13 => Register::R13D,
        Register::R14 => Register::R14D,
        Register::R15 => Register::R15D,
        reg => reg,
    }
}

/// Convert 64 bit register into 32 bit equivalent
fn reg64_to_reg32(reg: Register) -> (r: Register)
    ensures
        r == spec_reg64_to_reg32(reg),
{
    match reg {
        Register::RAX => Register::EAX,
        Register::RBX => Register::EBX,
        Register::RCX => Register::ECX,
        Register::RDX => Register::EDX,
        Register::RSI => Register::ESI,
        Register::RDI => Register::EDI,
        Register::RSP => Register::ESP,
        Register::RBP => Register::EBP,
        Register::R8 => Register::R8D,
        Register::R9 => Register::R9D,
        Register::R10 => Register::R10D,
        Register::R11 => Register::R11D,
        Register::R12 => Register::R12D,
        Register::R13 => Register::R13D,
        Register::R14 => Register::R14D,
        Register::R15 => Register::R15D,
        reg => reg,
    }
}

/// Converting a 64 bit register to its 32 bit half keeps its register number and
/// makes it a 32 bit register, so the encoding only loses the REX.W bit.
pub proof fn lemma_reg64_to_reg32(reg: Register)
    ensures
        spec_reg_bits(spec_reg64_to_reg32(reg)) == spec_reg_bits(reg),
        spec_is_64bit_reg(reg) ==> spec_is_32bit_reg(spec_reg64_to_reg32(reg)),
        !spec_is_64bit_reg(spec_reg64_to_reg32(reg)),
        !spec_is_64bit_reg(reg) ==> spec_reg64_to_reg32(reg) == reg,
{
    reveal(spec_reg_bits);
}

/// The registers R8 to R15 in all their widths.
pub open spec fn spec_is_extended_reg(reg: Register) -> bool {
    matches!(reg,
        Register::R8 | Register::R8D | Register::R8W | Register::R8B
        | Register::R9 | Register::R9D | Register::R9W | Register::R9B
        | Register::R10 | Register::R10D | Register::R10W | Register::R10B
        | Register::R11 | Register::R11D | Register::R11W | Register::R11B
        | Register::R12 | Register::R12D | Register::R12W | Register::R12B
        | Register::R13 | Register::R13D | Register::R13W | Register::R13B
        | Register::R14 | Register::R14D | Register::R14W | Register::R14B
        | Register::R15 | Register::R15D | Register::R15W | Register::R15B)
}

/// A register's number has four bits, the highest set exactly for R8 to R15 in any
/// width (it goes to a REX bit); registers of the same width have different numbers.
pub proof fn lemma_reg_bits(r1: Register, r2: Register)
    ensures
        spec_reg_bits(r1) < 16,
        spec_reg_bits(r1) >= 8 <==> spec_is_extended_reg(r1),
        spec_is_64bit_reg(r1) && spec_is_64bit_reg(r2) && spec_reg_bits(r1) == spec_reg_bits(r2) ==> r1 == r2,
        spec_is_32bit_reg(r1) && spec_is_32bit_reg(r2) && spec_reg_bits(r1) == spec_reg_bits(r2) ==> r1 == r2,
        spec_is_16bit_reg(r1) && spec_is_16bit_reg(r2) && spec_reg_bits(r1) == spec_reg_bits(r2) ==> r1 == r2,
{
}

pub open spec fn spec_reg_value_bits(reg: RegValue) -> u8 {
    match reg {
        RegValue::Register(r) => spec_reg_bits(r),
        RegValue::Extension(ext) => ext,
        RegValue::Empty => 0,
    }
}

/// The REX prefix byte, present only when one of its bits is set.
pub open spec fn spec_rex_prefix(w: bool, r: bool, b: bool) -> Seq<u8> {
    if w || r || b {
        seq![(0b0100u8 << 4u8) | spec_to_byte(w) << 3u8 | spec_to_byte(r) << 2u8 | spec_to_byte(false) << 1u8 | spec_to_byte(b)]
    } else {
        Seq::empty()
    }
}

/// The bytes of an instruction with a register as r/m operand: optional REX
/// prefix, opcode and mod/rm byte (register direct mode).
pub open spec fn spec_rex_opcode_modrm(opcode: Seq<u8>, rm: Register, reg: RegValue) -> Seq<u8> {
    let rm_bits = spec_reg_bits(rm);
    let reg_bits = spec_reg_value_bits(reg);
    spec_rex_prefix(spec_is_64bit_reg(rm), (reg_bits >> 3u8) == 1, (rm_bits >> 3u8) == 1) + opcode
        + seq![(0b11u8 << 6u8) | (reg_bits & 0b111u8) << 3u8 | (rm_bits & 0b111u8)]
}

/// Add opcode, modrm byte and optionally the rex byte infront
/// - output: where to output the bytecode
/// - rm: r/m argument, usually the first operand
/// - reg: reg argument, usually the second operand, or opcode extension
pub fn add_rex_opcode_modrm(
    output: &mut IntermediateAssemblingResult,
    opcode: Vec<u8>,
    rm: Register,
    reg: RegValue,
)
    requires
        old(output).wf(),
    ensures
        final(output).wf(),
        final(output).model() == old(output).model().append_code(
            spec_rex_opcode_modrm(opcode@, rm, reg),
        ),
{
    let mut opcode = opcode;
    let ghost op = opcode@;
    let ghost start = output.code@;
    proof {
        old(output).model().lemma_append_code_wf(spec_rex_opcode_modrm(op, rm, reg));
    }
    // Create 4 bit register codes
    let rm_bits = reg_to_XREG_bits(&rm);
    let reg_bits = match reg {
        RegValue::Register(reg) => reg_to_XREG_bits(&reg),
        RegValue::Extension(ext) => ext,
        RegValue::Empty => 0,
    };

    // Create rex prefix
    let rex_w = is_64bit_reg(&rm);
    let rex_r = (reg_bits >> 3) == 1;
    let rex_x = false;
    let rex_b = (rm_bits >> 3) == 1;
    let rex: u8 = 0b0100 << 4 | to_byte(rex_w) << 3 | to_byte(rex_r) << 2 | to_byte(rex_x) << 1
        | to_byte(rex_b);
    // rex only needed if it actually encodes anything
    if rex_w || rex_r || rex_x || rex_b {
        output.code.push(rex);
    }
    output.code.append(&mut opcode);

    // Create modr/m byte
    let mod_: u8 = 0b11;
    let reg_field = reg_bits & 0b111;
    let rm_field = rm_bits & 0b111;
    let mod_reg_rm = mod_ << 6 | reg_field << 3 | rm_field;
    output.code.push(mod_reg_rm);
    assert(output.code@ =~= start + spec_rex_opcode_modrm(op, rm, reg));
}

/// The bytes that address a memory operand `[base + disp]` with the mod/rm byte: the
/// r/m field names the base register, a SIB byte follows when the base is RSP or R12,
/// and the displacement follows as 8 or 32 bits.
pub open spec fn spec_memory_modrm(base: Register, reg_bits: u8, disp: Option<i32>) -> Seq<u8> {
    let base_bits = spec_reg_bits(base) & 0b111u8;
    let reg_field = (reg_bits & 0b111u8) << 3u8;
    let sib: Seq<u8> = if base_bits == 0b100u8 { seq![0x24u8] } else { Seq::empty() };
    match disp {
        Some(d) => seq![(0b10u8 << 6u8) | reg_field | base_bits] + sib + le_bytes(d as u32 as nat, 4),
        None => if base_bits == 0b101u8 {
            seq![(0b01u8 << 6u8) | reg_field | base_bits] + sib + seq![0u8]
        } else {
            seq![reg_field | base_bits] + sib
        },
    }
}

/// The bytes of an instruction with any operand as r/m operand, `None` for an
/// immediate, which has no r/m encoding.
pub open spec fn spec_rex_opcode_modrm_operand(opcode: Seq<u8>, rm: Operand, reg: RegValue) -> Option<Seq<u8>> {
    let reg_bits = spec_reg_value_bits(reg);
    let reg_is_64 = match reg {
        RegValue::Register(r) => spec_is_64bit_reg(r),
        _ => false,
    };
    match rm {
        Operand::Register(r) => Some(spec_rex_opcode_modrm(opcode, r, reg)),
        Operand::Indirect(base) => Some(
            spec_rex_prefix(reg_is_64, (reg_bits >> 3u8) == 1, (spec_reg_bits(base) >> 3u8) == 1)
                + opcode + spec_memory_modrm(base, reg_bits, None),
        ),
        Operand::IndirectDisplacement(base, d) => Some(
            spec_rex_prefix(reg_is_64, (reg_bits >> 3u8) == 1, (spec_reg_bits(base) >> 3u8) == 1)
                + opcode + spec_memory_modrm(base, reg_bits, Some(d)),
        ),
        Operand::Immediate(_) => None,
    }
}

/// Appends the REX prefix byte when one of its bits is set.
fn push_rex_prefix(code: &mut Vec<u8>, rex_w: bool, rex_r: bool, rex_b: bool)
    ensures
        final(code)@ == old(code)@ + spec_rex_prefix(rex_w, rex_r, rex_b),
{
    let rex_x = false;
    let rex: u8 = 0b0100 << 4 | to_byte(rex_w) << 3 | to_byte(rex_r) << 2 | to_byte(rex_x) << 1
        | to_byte(rex_b);
    if rex_w || rex_r || rex_x || rex_b {
        code.push(rex);
    }
    assert(code@ =~= old(code)@ + spec_rex_prefix(rex_w, rex_r, rex_b));
}

/// Appends the mod/rm byte, SIB byte and displacement that address `[base + disp]`.
fn push_memory_modrm(code: &mut Vec<u8>, base: Register, reg_bits: u8, disp: Option<i32>)
    ensures
        final(code)@ == old(code)@ + spec_memory_modrm(base, reg_bits, disp),
{
    let base_field = reg_to_XREG_bits(&base) & 0b111;
    let reg_field = (reg_bits & 0b111) << 3;
    match disp {
        Some(d) => {
            code.push(0b10 << 6 | reg_field | base_field);
            if base_field == 0b100 {
                code.push(0x24);
            }
            push_le_bytes(code, d as u32 as u64, 4);
        },
        None => {
            if base_field == 0b101 {
                code.push(0b01 << 6 | reg_field | base_field);
                code.push(0);
            } else {
                code.push(reg_field | base_field);
                if base_field == 0b100 {
                    code.push(0x24);
                }
            }
        },
    }
    assert(code@ =~= old(code)@ + spec_memory_modrm(base, reg_bits, disp));
}

/// Same as add_rex_opcode_modrm, but the r/m operand may also address memory
/// through a base register, with or without displacement
pub fn add_rex_opcode_modrm_offset(
    output: &mut IntermediateAssemblingResult,
    opcode: Vec<u8>,
    rm: Operand,
    reg: RegValue,
)
    requires
        old(output).wf(),
        spec_rex_opcode_modrm_operand(opcode@, rm, reg) is Some,
    ensures
        final(output).wf(),
        final(output).model() == old(output).model().append_code(
            spec_rex_opcode_modrm_operand(opcode@, rm, reg)->0,
        ),
{
    let ghost op = opcode@;
    let ghost start = output.code@;
    proof {
        if spec_rex_opcode_modrm_operand(op, rm, reg) is Some {
            old(output).model().lemma_append_code_wf(spec_rex_opcode_modrm_operand(op, rm, reg)->0);
        }
    }
    let (base, disp) = match rm {
        Operand::Register(r) => {
            add_rex_opcode_modrm(output, opcode, r, reg);
            return ;
        },
        Operand::Indirect(base) => (base, None),
        Operand::IndirectDisplacement(base, d) => (base, Some(d)),
        Operand::Immediate(_) => {
            return ;
        },
    };
    let mut opcode = opcode;
    let base_bits = reg_to_XREG_bits(&base);
    let (reg_bits, reg_is_64) = match reg {
        RegValue::Register(r) => (reg_to_XREG_bits(&r), is_64bit_reg(&r)),
        RegValue::Extension(ext) => (ext, false),
        RegValue::Empty => (0, false),
    };
    push_rex_prefix(&mut output.code, reg_is_64, (reg_bits >> 3) == 1, (base_bits >> 3) == 1);
    output.code.append(&mut opcode);
    push_memory_modrm(&mut output.code, base, reg_bits, disp);
    assert(output.code@ =~= start + spec_rex_opcode_modrm_operand(op, rm, reg)->0);
}

pub open spec fn spec_to_reg32_operand(rm: Operand) -> Operand {
    match rm {
        Operand::Register(r) => Operand::Register(spec_reg64_to_reg32(r)),
        other => other,
    }
}

pub open spec fn spec_to_reg32_value(reg: RegValue) -> RegValue {
    match reg {
        RegValue::Register(r) => RegValue::Register(spec_reg64_to_reg32(r)),
        x => x,
    }
}

/// The register-direct encoding with the operands taken as 64 bit: the encoding of the
/// operands as they are with the REX.W bit cleared (and no REX byte where no other bit is
/// set), with the same register numbers.
pub proof fn lemma_modrm64_clears_rex_w(opcode: Seq<u8>, rm: Register, reg: RegValue)
    ensures
        ({
            let rm_bits = spec_reg_bits(rm);
            let reg_bits = spec_reg_value_bits(reg);
            let modrm = seq![(0b11u8 << 6u8) | (reg_bits & 0b111u8) << 3u8 | (rm_bits & 0b111u8)];
            &&& spec_rex_opcode_modrm(opcode, rm, reg) == spec_rex_prefix(spec_is_64bit_reg(rm), (reg_bits >> 3u8) == 1, (rm_bits >> 3u8) == 1) + opcode + modrm
            &&& spec_rex_opcode_modrm_operand(opcode, spec_to_reg32_operand(Operand::Register(rm)), spec_to_reg32_value(reg))
                == Some(spec_rex_prefix(false, (reg_bits >> 3u8) == 1, (rm_bits >> 3u8) == 1) + opcode + modrm)
        }),
{
    lemma_reg64_to_reg32(rm);
    match reg {
        RegValue::Register(r) => lemma_reg64_to_reg32(r),
        _ => {},
    }
}

/// Same as add_rex_opcode_modrm but assumes 64 bit size operants, meaning
/// rex.w byte is not needed. Some instructions default to 64 bit operands
pub fn add_rex_opcode_modrm64bit(
    output: &mut IntermediateAssemblingResult,
    opcode: Vec<u8>,
    rm: Operand,
    reg: RegValue,
)
    requires
        old(output).wf(),
        spec_rex_opcode_modrm_operand(opcode@, spec_to_reg32_operand(rm), spec_to_reg32_value(reg)) is Some,
    ensures
        final(output).wf(),
        final(output).model() == old(output).model().append_code(
            spec_rex_opcode_modrm_operand(opcode@, spec_to_reg32_operand(rm), spec_to_reg32_value(reg))->0,
        ),
{
    // Just converts the 64 bit register to 32 bit ones and use regular function
    let reg = match reg {
        RegValue::Register(register) => RegValue::Register(reg64_to_reg32(register)),
        x => x,
    };
    let rm = match rm {
        Operand::Register(r) => Operand::Register(reg64_to_reg32(r)),
        other => other,
    };
    add_rex_opcode_modrm_offset(output, opcode, rm, reg);
}

/// What adding an offset (or immediate) to the instruction does: a literal is written
/// as its `offset_bytes` least significant bytes; a label gets a relocation entry when
/// absolute, a data label is written as its position in the data, and a code label is
/// written as zeros and remembered, to be filled in once all code labels are known.
/// `None` when a data label is not defined.
pub open spec fn spec_add_offset(m: AsmModel, offset: ImmediateValue, offset_bytes: u8, label_type: LabelType) -> Option<AsmModel> {
    match offset {
        ImmediateValue::Literal(v) => Some(m.append_code(le_bytes(v as u64 as nat, offset_bytes as nat))),
        ImmediateValue::Label(label, segment) => {
            let m1 = if label_type == LabelType::Absolute {
                AsmModel {
                    code_relocate: m.code_relocate.push(
                        RelocationEntrie { offset: m.code.len() as usize, bytes: offset_bytes, segment },
                    ),
                    ..m
                }
            } else {
                m
            };
            match segment {
                SegmentType::Data => match lookup(m.data_labels, label@) {
                    Some(address) => Some(m1.append_code(le_bytes(address as nat, offset_bytes as nat))),
                    None => None,
                },
                SegmentType::Text => Some(
                    AsmModel {
                        code_label_positions: m1.code_label_positions.push(
                            CodeLabelPosition {
                                label,
                                address_index: m.code.len() as usize,
                                label_type,
                                bytes: offset_bytes,
                            },
                        ),
                        ..m1
                    }.append_code(le_bytes(0, offset_bytes as nat)),
                ),
            }
        },
    }
}

/// Adds the immediate part to the instruction
pub fn add_immediate(output: &mut IntermediateAssemblingResult, immediate: ImmediateValue, immediate_bytes: u8)
    requires
        old(output).wf(),
        immediate_bytes <= 8,
        spec_add_offset(old(output).model(), immediate, immediate_bytes, LabelType::Absolute) is Some,
    ensures
        final(output).wf(),
        final(output).model() == spec_add_offset(old(output).model(), immediate, immediate_bytes, LabelType::Absolute)->0,
{
    // immediate and offset follow basically the same logic
    add_offset(output, immediate, immediate_bytes, LabelType::Absolute);
}

/// Adds the offset part to the instruction
pub fn add_offset(
    output: &mut IntermediateAssemblingResult,
    offset: ImmediateValue,
    offset_bytes: u8,
    label_type: LabelType,
)
    requires
        old(output).wf(),
        offset_bytes <= 8,
        spec_add_offset(old(output).model(), offset, offset_bytes, label_type) is Some,
    ensures
        final(output).wf(),
        final(output).model() == spec_add_offset(old(output).model(), offset, offset_bytes, label_type)->0,
{
    let ghost m = output.model();
    proof {
        lemma_le_bytes_len(0, offset_bytes as nat);
    }
    match offset {
        ImmediateValue::Literal(bytes) => {
            push_le_bytes(&mut output.code, bytes as u64, offset_bytes as usize);
            proof {
                lemma_le_bytes_len(bytes as u64 as nat, offset_bytes as nat);
            }
        },
        ImmediateValue::Label(label, segment_type) => {
            // Relocation only needed if it is a absolute offset
            if label_type == LabelType::Absolute {
                output.code_relocate.push(
                    RelocationEntrie { offset: output.code.len(), bytes: offset_bytes, segment: segment_type },
                );
            }
            match segment_type {
                SegmentType::Data => {
                    let address = match output.data_labels.get(&label) {
                        Some(a) => *a,
                        None => { return ; },
                    };
                    push_le_bytes(&mut output.code, address, offset_bytes as usize);
                    proof {
                        lemma_le_bytes_len(address as nat, offset_bytes as nat);
                    }
                },
                // Add to code label positions to be processed afterwards,
                // all 0 bytes as a placeholder
                SegmentType::Text => {
                    output.code_label_positions.push(
                        CodeLabelPosition {
                            label,
                            address_index: output.code.len(),
                            label_type,
                            bytes: offset_bytes,
                        },
                    );
                    push_le_bytes(&mut output.code, 0, offset_bytes as usize);
                },
            }
        },
    }
    assert(output.model() == spec_add_offset(m, offset, offset_bytes, label_type)->0);
}

} // verus!
