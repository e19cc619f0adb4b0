//! Encoding of a single instruction.
use vstd::prelude::*;

use crate::assembling::assemble_instruction_part::{
    add_immediate, add_offset, add_rex_opcode_modrm64bit, add_rex_opcode_modrm_offset,
    spec_add_offset, spec_rex_opcode_modrm_operand, spec_to_reg32_operand, spec_to_reg32_value,
    RegValue,
};
use crate::assembling::assembly::{
    is_32bit_reg, is_64bit_reg, is_8bit_reg, spec_is_32bit_reg, spec_is_64bit_reg,
    spec_is_8bit_reg, ImmediateValue, Instruction, Operand,
};
use crate::assembling::{append_code_bytes, positions_apart, positions_fit, relocations_ordered, AsmModel, CodeLabelPosition, IntermediateAssemblingResult, LabelType};
use crate::little_endian::lemma_le_bytes_len;
use crate::linking::elf::SegmentType;
use crate::string_map::{has_key, keys_unique, lemma_insert, lookup, spec_insert};

verus! {

/// Opcode and mod/rm part of an instruction, `None` when the r/m operand cannot be encoded.
pub open spec fn spec_modrm_step(m: AsmModel, opcode: Seq<u8>, rm: Operand, reg: RegValue) -> Option<AsmModel> {
    match spec_rex_opcode_modrm_operand(opcode, rm, reg) {
        Some(bytes) => Some(m.append_code(bytes)),
        None => None,
    }
}

/// Opcode and mod/rm part of an instruction whose operands default to 64 bits.
pub open spec fn spec_modrm64_step(m: AsmModel, opcode: Seq<u8>, rm: Operand, reg: RegValue) -> Option<AsmModel> {
    spec_modrm_step(m, opcode, spec_to_reg32_operand(rm), spec_to_reg32_value(reg))
}

/// The immediate or offset part that follows, if the part before could be encoded.
pub open spec fn spec_then_offset(m: Option<AsmModel>, offset: ImmediateValue, bytes: u8, label_type: LabelType) -> Option<AsmModel> {
    match m {
        Some(m) => spec_add_offset(m, offset, bytes, label_type),
        None => None,
    }
}

/// An operand that addresses memory through a base register.
pub open spec fn spec_is_memory(rm: Operand) -> bool {
    rm is Indirect || rm is IndirectDisplacement
}

/// Whether the operand addresses memory through a base register.
fn is_memory(rm: &Operand) -> (r: bool)
    ensures
        r == spec_is_memory(*rm),
{
    match rm {
        Operand::Indirect(_) => true,
        Operand::IndirectDisplacement(_, _) => true,
        _ => false,
    }
}

pub open spec fn spec_is_32or64(reg: crate::assembling::assembly::Register) -> bool {
    spec_is_32bit_reg(reg) || spec_is_64bit_reg(reg)
}

/// The assembler state after encoding `instruction`; `None` for an instruction or an
/// operand combination that the assembler does not support, or a data label that is
/// not defined.
pub open spec fn spec_assemble_instruction(m: AsmModel, instruction: Instruction) -> Option<AsmModel> {
    match instruction {
        Instruction::ILabel(label) => Some(
            AsmModel { code_labels: spec_insert(m.code_labels, label, m.code.len() as u64), ..m },
        ),
        Instruction::Mov(Operand::Register(reg), Operand::Immediate(val)) if spec_is_32or64(reg) =>
            spec_then_offset(spec_modrm_step(m, seq![0xC7u8], Operand::Register(reg), RegValue::Empty), val, 4, LabelType::Absolute),
        Instruction::Mov(rm, Operand::Register(reg)) =>
            spec_modrm_step(m, seq![0x89u8], rm, RegValue::Register(reg)),
        Instruction::Syscall => Some(m.append_code(seq![0x0Fu8, 0x05u8])),
        Instruction::Leave => Some(m.append_code(seq![0xC9u8])),
        Instruction::Ret => Some(m.append_code(seq![0xC3u8])),
        Instruction::Call(Operand::Immediate(immediate)) =>
            spec_add_offset(m.append_code(seq![0xE8u8]), immediate, 4, LabelType::Relative),
        Instruction::Jmp(Operand::Immediate(immediate)) =>
            spec_add_offset(m.append_code(seq![0xE9u8]), immediate, 4, LabelType::Relative),
        Instruction::Pop(Operand::Register(reg)) if spec_is_64bit_reg(reg) =>
            spec_modrm_step(m, seq![0x8Fu8], Operand::Register(reg), RegValue::Empty),
        Instruction::Push(Operand::Immediate(immediate)) =>
            spec_add_offset(m.append_code(seq![0x68u8]), immediate, 4, LabelType::Absolute),
        Instruction::Push(reg) =>
            spec_modrm64_step(m, seq![0xFFu8], reg, RegValue::Extension(0x06)),
        Instruction::Sub(Operand::Register(reg), Operand::Immediate(val)) if spec_is_32or64(reg) =>
            spec_then_offset(spec_modrm_step(m, seq![0x81u8], Operand::Register(reg), RegValue::Extension(5)), val, 4, LabelType::Absolute),
        Instruction::Add(Operand::Register(reg), Operand::Immediate(val)) if spec_is_32or64(reg) =>
            spec_then_offset(spec_modrm_step(m, seq![0x81u8], Operand::Register(reg), RegValue::Extension(0)), val, 4, LabelType::Absolute),
        Instruction::Cmp(Operand::Register(reg), Operand::Immediate(val)) if spec_is_32or64(reg) =>
            spec_then_offset(spec_modrm_step(m, seq![0x81u8], Operand::Register(reg), RegValue::Extension(7)), val, 4, LabelType::Absolute),
        Instruction::Cmp(Operand::Register(rm), Operand::Register(reg)) if spec_is_32or64(reg) =>
            spec_modrm_step(m, seq![0x39u8], Operand::Register(rm), RegValue::Register(reg)),
        Instruction::JE(op) =>
            spec_add_offset(m.append_code(seq![0x0Fu8, 0x84u8]), op, 4, LabelType::Relative),
        Instruction::JNE(op) =>
            spec_add_offset(m.append_code(seq![0x0Fu8, 0x85u8]), op, 4, LabelType::Relative),
        Instruction::Add(Operand::Register(reg), Operand::Register(rm)) if spec_is_32or64(reg) =>
            spec_modrm_step(m, seq![0x03u8], Operand::Register(rm), RegValue::Register(reg)),
        Instruction::Sub(Operand::Register(reg), Operand::Register(rm)) if spec_is_32or64(reg) =>
            spec_modrm_step(m, seq![0x2Bu8], Operand::Register(rm), RegValue::Register(reg)),
        Instruction::IMul(Operand::Register(reg), Operand::Register(rm)) if spec_is_32or64(reg) =>
            spec_modrm_step(m, seq![0x0Fu8, 0xAFu8], Operand::Register(rm), RegValue::Register(reg)),
        Instruction::And(Operand::Register(rm), Operand::Register(reg)) if spec_is_32or64(reg) =>
            spec_modrm_step(m, seq![0x21u8], Operand::Register(rm), RegValue::Register(reg)),
        Instruction::Or(Operand::Register(rm), Operand::Register(reg)) if spec_is_32or64(reg) =>
            spec_modrm_step(m, seq![0x09u8], Operand::Register(rm), RegValue::Register(reg)),
        Instruction::SetL(Operand::Register(rm)) if spec_is_8bit_reg(rm) =>
            spec_modrm_step(m, seq![0x0Fu8, 0x9Cu8], Operand::Register(rm), RegValue::Empty),
        Instruction::SetLE(Operand::Register(rm)) if spec_is_8bit_reg(rm) =>
            spec_modrm_step(m, seq![0x0Fu8, 0x9Eu8], Operand::Register(rm), RegValue::Empty),
        Instruction::SetE(Operand::Register(rm)) if spec_is_8bit_reg(rm) =>
            spec_modrm_step(m, seq![0x0Fu8, 0x94u8], Operand::Register(rm), RegValue::Empty),
        Instruction::SetG(Operand::Register(rm)) if spec_is_8bit_reg(rm) =>
            spec_modrm_step(m, seq![0x0Fu8, 0x9Fu8], Operand::Register(rm), RegValue::Empty),
        Instruction::SetGE(Operand::Register(rm)) if spec_is_8bit_reg(rm) =>
            spec_modrm_step(m, seq![0x0Fu8, 0x9Du8], Operand::Register(rm), RegValue::Empty),
        Instruction::SetNE(Operand::Register(rm)) if spec_is_8bit_reg(rm) =>
            spec_modrm_step(m, seq![0x0Fu8, 0x95u8], Operand::Register(rm), RegValue::Empty),
        Instruction::LEA(Operand::Register(reg), rm) if spec_is_32or64(reg) =>
            spec_modrm_step(m, seq![0x8Du8], rm, RegValue::Register(reg)),
        Instruction::IDiv(Operand::Register(rm)) if spec_is_32or64(rm) =>
            spec_modrm_step(m, seq![0xF7u8], Operand::Register(rm), RegValue::Extension(7)),
        Instruction::Xor(Operand::Register(reg), Operand::Immediate(val)) if spec_is_32or64(reg) =>
            spec_then_offset(spec_modrm_step(m, seq![0x81u8], Operand::Register(reg), RegValue::Extension(6)), val, 4, LabelType::Absolute),
        Instruction::MovZX(Operand::Register(reg), rm) if spec_is_32or64(reg) && spec_is_memory(rm) =>
            spec_modrm_step(m, seq![0x0Fu8, 0xB6u8], rm, RegValue::Register(reg)),
        _ => None,
    }
}

/// Whether an offset can be encoded: a literal or a code label always, a data label
/// only once it is defined.
fn offset_encodable(output: &IntermediateAssemblingResult, offset: &ImmediateValue) -> (r: bool)
    requires
        output.wf(),
    ensures
        r == match *offset {
            ImmediateValue::Label(label, SegmentType::Data) => has_key(output.data_labels.entries@, label@),
            _ => true,
        },
{
    match offset {
        ImmediateValue::Label(label, SegmentType::Data) => output.data_labels.contains_key(label),
        _ => true,
    }
}

/// Whether an operand can stand as r/m operand: anything but an immediate.
fn rm_encodable(rm: &Operand) -> (r: bool)
    ensures
        r == !(*rm is Immediate),
{
    match rm {
        Operand::Immediate(_) => false,
        _ => true,
    }
}

/// Whether `assemble_instruction` can encode `instruction` in the current state.
#[verifier::rlimit(50)]
pub fn instruction_assemblable(output: &IntermediateAssemblingResult, instruction: &Instruction) -> (r: bool)
    requires
        output.wf(),
    ensures
        r == spec_assemble_instruction(output.model(), *instruction) is Some,
{
    match instruction {
        Instruction::ILabel(_) => true,
        Instruction::Mov(Operand::Register(reg), Operand::Immediate(val))
            if is_32bit_reg(reg) || is_64bit_reg(reg) => offset_encodable(output, val),
        Instruction::Mov(rm, Operand::Register(_)) => rm_encodable(rm),
        Instruction::Syscall => true,
        Instruction::Leave => true,
        Instruction::Ret => true,
        Instruction::Call(Operand::Immediate(immediate)) => offset_encodable(output, immediate),
        Instruction::Jmp(Operand::Immediate(immediate)) => offset_encodable(output, immediate),
        Instruction::Pop(Operand::Register(reg)) if is_64bit_reg(reg) => true,
        Instruction::Push(Operand::Immediate(immediate)) => offset_encodable(output, immediate),
        Instruction::Push(_) => true,
        Instruction::Sub(Operand::Register(reg), Operand::Immediate(val))
            if is_32bit_reg(reg) || is_64bit_reg(reg) => offset_encodable(output, val),
        Instruction::Add(Operand::Register(reg), Operand::Immediate(val))
            if is_32bit_reg(reg) || is_64bit_reg(reg) => offset_encodable(output, val),
        Instruction::Cmp(Operand::Register(reg), Operand::Immediate(val))
            if is_32bit_reg(reg) || is_64bit_reg(reg) => offset_encodable(output, val),
        Instruction::Cmp(Operand::Register(_), Operand::Register(reg))
            if is_32bit_reg(reg) || is_64bit_reg(reg) => true,
        Instruction::JE(op) => offset_encodable(output, op),
        Instruction::JNE(op) => offset_encodable(output, op),
        Instruction::Add(Operand::Register(reg), Operand::Register(_))
            if is_32bit_reg(reg) || is_64bit_reg(reg) => true,
        Instruction::Sub(Operand::Register(reg), Operand::Register(_))
            if is_32bit_reg(reg) || is_64bit_reg(reg) => true,
        Instruction::IMul(Operand::Register(reg), Operand::Register(_))
            if is_32bit_reg(reg) || is_64bit_reg(reg) => true,
        Instruction::And(Operand::Register(_), Operand::Register(reg))
            if is_32bit_reg(reg) || is_64bit_reg(reg) => true,
        Instruction::Or(Operand::Register(_), Operand::Register(reg))
            if is_32bit_reg(reg) || is_64bit_reg(reg) => true,
        Instruction::SetL(Operand::Register(rm)) if is_8bit_reg(rm) => true,
        Instruction::SetLE(Operand::Register(rm)) if is_8bit_reg(rm) => true,
        Instruction::SetE(Operand::Register(rm)) if is_8bit_reg(rm) => true,
        Instruction::SetG(Operand::Register(rm)) if is_8bit_reg(rm) => true,
        Instruction::SetGE(Operand::Register(rm)) if is_8bit_reg(rm) => true,
        Instruction::SetNE(Operand::Register(rm)) if is_8bit_reg(rm) => true,
        Instruction::LEA(Operand::Register(reg), rm) if is_32bit_reg(reg) || is_64bit_reg(reg) => rm_encodable(rm),
        Instruction::IDiv(Operand::Register(rm)) if is_32bit_reg(rm) || is_64bit_reg(rm) => true,
        Instruction::Xor(Operand::Register(reg), Operand::Immediate(val))
            if is_32bit_reg(reg) || is_64bit_reg(reg) => offset_encodable(output, val),
        Instruction::MovZX(Operand::Register(reg), rm) if (is_32bit_reg(reg) || is_64bit_reg(reg)) && is_memory(rm) => true,
        _ => false,
    }
}

/// The code label positions of the state share no byte and lie inside its code, and so
/// do its relocation entries, in the order of their offsets.
pub open spec fn positions_fit_model(m: AsmModel) -> bool {
    &&& positions_fit(m.code_label_positions, m.code.len())
    &&& relocations_ordered(m.code_relocate, m.code.len())
}

/// Appending code keeps the positions apart and inside the code.
proof fn lemma_fit_append(m: AsmModel, bytes: Seq<u8>)
    requires
        positions_fit_model(m),
    ensures
        positions_fit_model(m.append_code(bytes)),
{
}

/// Adding an offset appends as many bytes as the offset has.
pub proof fn lemma_add_offset_len(m: AsmModel, offset: ImmediateValue, offset_bytes: u8, label_type: LabelType)
    requires
        spec_add_offset(m, offset, offset_bytes, label_type) is Some,
    ensures
        spec_add_offset(m, offset, offset_bytes, label_type)->0.code.len() == m.code.len() + offset_bytes,
{
    match offset {
        ImmediateValue::Literal(v) => lemma_le_bytes_len(v as u64 as nat, offset_bytes as nat),
        ImmediateValue::Label(label, SegmentType::Data) => {
            lemma_le_bytes_len(lookup(m.data_labels, label@)->0 as nat, offset_bytes as nat);
        },
        ImmediateValue::Label(_, SegmentType::Text) => lemma_le_bytes_len(0, offset_bytes as nat),
    }
}

/// Adding an offset keeps the code before it.
pub proof fn lemma_add_offset_appends(m: AsmModel, offset: ImmediateValue, offset_bytes: u8, label_type: LabelType)
    requires
        spec_add_offset(m, offset, offset_bytes, label_type) is Some,
    ensures
        spec_add_offset(m, offset, offset_bytes, label_type)->0.code.len() >= m.code.len(),
        spec_add_offset(m, offset, offset_bytes, label_type)->0.code.subrange(0, m.code.len() as int) == m.code,
{
    lemma_add_offset_len(m, offset, offset_bytes, label_type);
    let r = spec_add_offset(m, offset, offset_bytes, label_type)->0;
    assert(r.code.subrange(0, m.code.len() as int) =~= m.code);
}

/// Adding an offset of at most eight bytes keeps the positions apart and inside the code:
/// a new position is the field just appended.
proof fn lemma_fit_add_offset(m: AsmModel, offset: ImmediateValue, offset_bytes: u8, label_type: LabelType)
    requires
        positions_fit_model(m),
        m.code.len() <= usize::MAX,
        offset_bytes <= 8,
        spec_add_offset(m, offset, offset_bytes, label_type) is Some,
    ensures
        positions_fit_model(spec_add_offset(m, offset, offset_bytes, label_type)->0),
{
    lemma_add_offset_len(m, offset, offset_bytes, label_type);
    match offset {
        ImmediateValue::Label(label, segment) => {
            let r = spec_add_offset(m, offset, offset_bytes, label_type)->0;
            // the relocation entry, if any, covers the field just appended
            let rs = m.code_relocate;
            let nr = rs.len() as int;
            if label_type == LabelType::Absolute {
                assert(r.code_relocate.len() == nr + 1);
                assert(r.code_relocate[nr].offset == m.code.len() && r.code_relocate[nr].bytes == offset_bytes);
                assert forall|i: int| 0 <= i < nr implies #[trigger] r.code_relocate[i] == rs[i] by {}
                assert forall|i: int, j: int| 0 <= i < j < r.code_relocate.len() implies #[trigger] r.code_relocate[i].offset
                    + r.code_relocate[i].bytes <= #[trigger] r.code_relocate[j].offset by {
                    assert(r.code_relocate[i] == rs[i]);
                    if j < nr {
                        assert(r.code_relocate[j] == rs[j]);
                    }
                }
                assert forall|i: int| 0 <= i < r.code_relocate.len() implies {
                    let e = #[trigger] r.code_relocate[i];
                    e.offset + e.bytes <= r.code.len() && e.bytes <= 8
                } by {
                    if i < nr {
                        assert(r.code_relocate[i] == rs[i]);
                    }
                }
            } else {
                assert(r.code_relocate == rs);
            }
            if segment == SegmentType::Text {
                let ps = m.code_label_positions;
                let n = ps.len() as int;
                assert(r.code_label_positions.len() == n + 1);
                assert forall|i: int| 0 <= i < n implies #[trigger] r.code_label_positions[i] == ps[i] by {}
                let q = r.code_label_positions[n];
                assert(q.address_index == m.code.len() && q.bytes == offset_bytes);
                assert forall|i: int, j: int|
                    0 <= i < r.code_label_positions.len() && 0 <= j < r.code_label_positions.len() && i != j
                    implies positions_apart(#[trigger] r.code_label_positions[i], #[trigger] r.code_label_positions[j]) by {
                    if i < n && j < n {
                        assert(r.code_label_positions[i] == ps[i] && r.code_label_positions[j] == ps[j]);
                    } else if i < n {
                        assert(r.code_label_positions[i] == ps[i]);
                    } else {
                        assert(r.code_label_positions[j] == ps[j]);
                    }
                }
                assert forall|i: int| 0 <= i < r.code_label_positions.len() implies {
                    let p = #[trigger] r.code_label_positions[i];
                    p.address_index + p.bytes <= r.code.len() && p.bytes <= 8
                } by {
                    if i < n {
                        assert(r.code_label_positions[i] == ps[i]);
                    }
                }
            } else {
                assert(r.code_label_positions == m.code_label_positions);
            }
        },
        _ => {},
    }
}

/// The instruction defines the code label `l`.
pub open spec fn defines_label(instruction: Instruction, l: Seq<char>) -> bool {
    instruction matches Instruction::ILabel(k) && k@ == l
}

/// A label instruction records the label at the current end of the code; every other
/// instruction leaves the code labels as they are.
pub proof fn lemma_instruction_code_labels(m: AsmModel, instruction: Instruction)
    requires
        spec_assemble_instruction(m, instruction) is Some,
        keys_unique(m.code_labels),
    ensures
        keys_unique(spec_assemble_instruction(m, instruction)->0.code_labels),
        forall|l: Seq<char>| !defines_label(instruction, l) ==> #[trigger] lookup(spec_assemble_instruction(m, instruction)->0.code_labels, l)
            == lookup(m.code_labels, l),
        instruction is ILabel ==> lookup(spec_assemble_instruction(m, instruction)->0.code_labels, instruction->ILabel_0@)
            == Some(m.code.len() as u64),
{
    match instruction {
        Instruction::ILabel(k) => {
            lemma_insert(m.code_labels, k, m.code.len() as u64);
        },
        _ => {
            assert(spec_assemble_instruction(m, instruction)->0.code_labels == m.code_labels);
        },
    }
}

/// Encoding an instruction leaves the data section and its labels as they are.
pub proof fn lemma_instruction_keeps_data(m: AsmModel, instruction: Instruction)
    requires
        spec_assemble_instruction(m, instruction) is Some,
    ensures
        spec_assemble_instruction(m, instruction)->0.data == m.data,
        spec_assemble_instruction(m, instruction)->0.data_labels == m.data_labels,
{
}

/// Encoding an instruction only adds code.
pub proof fn lemma_instruction_grows(m: AsmModel, instruction: Instruction)
    requires
        spec_assemble_instruction(m, instruction) is Some,
    ensures
        spec_assemble_instruction(m, instruction)->0.code.len() >= m.code.len(),
{
    match instruction {
        Instruction::ILabel(_) => {},
        Instruction::Mov(Operand::Register(reg), Operand::Immediate(val)) if spec_is_32or64(reg) => {
            let m1 = spec_modrm_step(m, seq![0xC7u8], Operand::Register(reg), RegValue::Empty)->0;
            lemma_add_offset_len(m1, val, 4, LabelType::Absolute);
        },
        Instruction::Mov(rm, Operand::Register(reg)) => {},
        Instruction::Call(Operand::Immediate(immediate)) => {
            lemma_add_offset_len(m.append_code(seq![0xE8u8]), immediate, 4, LabelType::Relative);
        },
        Instruction::Jmp(Operand::Immediate(immediate)) => {
            lemma_add_offset_len(m.append_code(seq![0xE9u8]), immediate, 4, LabelType::Relative);
        },
        Instruction::Push(Operand::Immediate(immediate)) => {
            lemma_add_offset_len(m.append_code(seq![0x68u8]), immediate, 4, LabelType::Absolute);
        },
        Instruction::Sub(Operand::Register(reg), Operand::Immediate(val)) if spec_is_32or64(reg) => {
            let m1 = spec_modrm_step(m, seq![0x81u8], Operand::Register(reg), RegValue::Extension(5))->0;
            lemma_add_offset_len(m1, val, 4, LabelType::Absolute);
        },
        Instruction::Add(Operand::Register(reg), Operand::Immediate(val)) if spec_is_32or64(reg) => {
            let m1 = spec_modrm_step(m, seq![0x81u8], Operand::Register(reg), RegValue::Extension(0))->0;
            lemma_add_offset_len(m1, val, 4, LabelType::Absolute);
        },
        Instruction::Cmp(Operand::Register(reg), Operand::Immediate(val)) if spec_is_32or64(reg) => {
            let m1 = spec_modrm_step(m, seq![0x81u8], Operand::Register(reg), RegValue::Extension(7))->0;
            lemma_add_offset_len(m1, val, 4, LabelType::Absolute);
        },
        Instruction::JE(op) => {
            lemma_add_offset_len(m.append_code(seq![0x0Fu8, 0x84u8]), op, 4, LabelType::Relative);
        },
        Instruction::JNE(op) => {
            lemma_add_offset_len(m.append_code(seq![0x0Fu8, 0x85u8]), op, 4, LabelType::Relative);
        },
        Instruction::Xor(Operand::Register(reg), Operand::Immediate(val)) if spec_is_32or64(reg) => {
            let m1 = spec_modrm_step(m, seq![0x81u8], Operand::Register(reg), RegValue::Extension(6))->0;
            lemma_add_offset_len(m1, val, 4, LabelType::Absolute);
        },
        _ => {
            let r = spec_assemble_instruction(m, instruction)->0;
            assert(r.code.len() >= m.code.len());
        },
    }
}

/// Encoding an instruction keeps the code label positions apart and inside the code.
#[verifier::spinoff_prover]
#[verifier::rlimit(40)]
pub proof fn lemma_fit_instruction(m: AsmModel, instruction: Instruction)
    requires
        positions_fit_model(m),
        spec_assemble_instruction(m, instruction) is Some,
        spec_assemble_instruction(m, instruction)->0.code.len() <= usize::MAX,
    ensures
        positions_fit_model(spec_assemble_instruction(m, instruction)->0),
{
    match instruction {
        Instruction::ILabel(_) => {},
        Instruction::Mov(Operand::Register(reg), Operand::Immediate(val)) if spec_is_32or64(reg) => {
            let m1 = spec_modrm_step(m, seq![0xC7u8], Operand::Register(reg), RegValue::Empty)->0;
            lemma_fit_append(m, spec_rex_opcode_modrm_operand(seq![0xC7u8], Operand::Register(reg), RegValue::Empty)->0);
            lemma_add_offset_len(m1, val, 4, LabelType::Absolute);
            lemma_fit_add_offset(m1, val, 4, LabelType::Absolute);
        },
        Instruction::Mov(rm, Operand::Register(reg)) => {
            lemma_fit_append(m, spec_rex_opcode_modrm_operand(seq![0x89u8], rm, RegValue::Register(reg))->0);
        },
        Instruction::Call(Operand::Immediate(immediate)) => {
            lemma_fit_append(m, seq![0xE8u8]);
            lemma_add_offset_len(m.append_code(seq![0xE8u8]), immediate, 4, LabelType::Relative);
            lemma_fit_add_offset(m.append_code(seq![0xE8u8]), immediate, 4, LabelType::Relative);
        },
        Instruction::Jmp(Operand::Immediate(immediate)) => {
            lemma_fit_append(m, seq![0xE9u8]);
            lemma_add_offset_len(m.append_code(seq![0xE9u8]), immediate, 4, LabelType::Relative);
            lemma_fit_add_offset(m.append_code(seq![0xE9u8]), immediate, 4, LabelType::Relative);
        },
        Instruction::Push(Operand::Immediate(immediate)) => {
            lemma_fit_append(m, seq![0x68u8]);
            lemma_add_offset_len(m.append_code(seq![0x68u8]), immediate, 4, LabelType::Absolute);
            lemma_fit_add_offset(m.append_code(seq![0x68u8]), immediate, 4, LabelType::Absolute);
        },
        Instruction::Sub(Operand::Register(reg), Operand::Immediate(val)) if spec_is_32or64(reg) => {
            let m1 = spec_modrm_step(m, seq![0x81u8], Operand::Register(reg), RegValue::Extension(5))->0;
            lemma_fit_append(m, spec_rex_opcode_modrm_operand(seq![0x81u8], Operand::Register(reg), RegValue::Extension(5))->0);
            lemma_add_offset_len(m1, val, 4, LabelType::Absolute);
            lemma_fit_add_offset(m1, val, 4, LabelType::Absolute);
        },
        Instruction::Add(Operand::Register(reg), Operand::Immediate(val)) if spec_is_32or64(reg) => {
            let m1 = spec_modrm_step(m, seq![0x81u8], Operand::Register(reg), RegValue::Extension(0))->0;
            lemma_fit_append(m, spec_rex_opcode_modrm_operand(seq![0x81u8], Operand::Register(reg), RegValue::Extension(0))->0);
            lemma_add_offset_len(m1, val, 4, LabelType::Absolute);
            lemma_fit_add_offset(m1, val, 4, LabelType::Absolute);
        },
        Instruction::Cmp(Operand::Register(reg), Operand::Immediate(val)) if spec_is_32or64(reg) => {
            let m1 = spec_modrm_step(m, seq![0x81u8], Operand::Register(reg), RegValue::Extension(7))->0;
            lemma_fit_append(m, spec_rex_opcode_modrm_operand(seq![0x81u8], Operand::Register(reg), RegValue::Extension(7))->0);
            lemma_add_offset_len(m1, val, 4, LabelType::Absolute);
            lemma_fit_add_offset(m1, val, 4, LabelType::Absolute);
        },
        Instruction::JE(op) => {
            lemma_fit_append(m, seq![0x0Fu8, 0x84u8]);
            lemma_add_offset_len(m.append_code(seq![0x0Fu8, 0x84u8]), op, 4, LabelType::Relative);
            lemma_fit_add_offset(m.append_code(seq![0x0Fu8, 0x84u8]), op, 4, LabelType::Relative);
        },
        Instruction::JNE(op) => {
            lemma_fit_append(m, seq![0x0Fu8, 0x85u8]);
            lemma_add_offset_len(m.append_code(seq![0x0Fu8, 0x85u8]), op, 4, LabelType::Relative);
            lemma_fit_add_offset(m.append_code(seq![0x0Fu8, 0x85u8]), op, 4, LabelType::Relative);
        },
        Instruction::Xor(Operand::Register(reg), Operand::Immediate(val)) if spec_is_32or64(reg) => {
            let m1 = spec_modrm_step(m, seq![0x81u8], Operand::Register(reg), RegValue::Extension(6))->0;
            lemma_fit_append(m, spec_rex_opcode_modrm_operand(seq![0x81u8], Operand::Register(reg), RegValue::Extension(6))->0);
            lemma_add_offset_len(m1, val, 4, LabelType::Absolute);
            lemma_fit_add_offset(m1, val, 4, LabelType::Absolute);
        },
        _ => {
            // every other encoding only appends bytes
            let r = spec_assemble_instruction(m, instruction)->0;
            assert(r.code_label_positions == m.code_label_positions);
            assert(r.code.len() >= m.code.len());
        },
    }
}

/// Output the assembly of a single instruction
#[verifier::spinoff_prover]
#[verifier::rlimit(50)]
pub fn assemble_instruction(instruction: Instruction, output: &mut IntermediateAssemblingResult)
    requires
        old(output).wf(),
        spec_assemble_instruction(old(output).model(), instruction) is Some,
    ensures
        final(output).wf(),
        final(output).model() == spec_assemble_instruction(old(output).model(), instruction)->0,
{
    let ghost m0 = output.model();
    let ghost instr0 = instruction;
    match instruction {
        Instruction::ILabel(label) => {
            proof {
                lemma_insert(output.code_labels.entries@, label, output.code@.len() as u64);
            }
            let position = output.code.len() as u64;
            let ghost label_view = label@;
            output.code_labels.insert(label, position);
            proof {
                let m = output.model();
                assert forall|i: int| 0 <= i < m.code_label_positions.len() implies {
                    let p = #[trigger] m.code_label_positions[i];
                    p.address_index + p.bytes <= m.code.len() && p.bytes <= 8
                } by {
                    assert(m.code_label_positions[i] == old(output).model().code_label_positions[i]);
                }
                let old_labels = old(output).model().code_labels;
                assert forall|i: int| 0 <= i < m.code_labels.len() implies #[trigger] m.code_labels[i].1 <= m.code.len() by {
                    if has_key(old_labels, label_view) {
                        let c = choose|c: int| 0 <= c < old_labels.len() && #[trigger] old_labels[c].0@ == label_view;
                        if i != c {
                            assert(m.code_labels[i] == old_labels[i]);
                        }
                    } else {
                        if i < old_labels.len() {
                            assert(m.code_labels[i] == old_labels[i]);
                        }
                    }
                }
            }
            assert(output.model() == spec_assemble_instruction(m0, instr0)->0);
        },
        Instruction::Mov(Operand::Register(reg), Operand::Immediate(val))
            if is_32bit_reg(&reg) || is_64bit_reg(&reg) => {
            let opc: Vec<u8> = vec![0xC7];
            assert(opc@ =~= seq![0xC7u8]);
            add_rex_opcode_modrm_offset(output, opc, Operand::Register(reg), RegValue::Empty);
            add_immediate(output, val, 4);
            assert(output.model() == spec_assemble_instruction(m0, instr0)->0);
        },
        Instruction::Mov(rm, Operand::Register(reg)) => {
            let opc: Vec<u8> = vec![0x89];
            assert(opc@ =~= seq![0x89u8]);
            add_rex_opcode_modrm_offset(output, opc, rm, RegValue::Register(reg));
            assert(output.model() == spec_assemble_instruction(m0, instr0)->0);
        },
        Instruction::Syscall => {
            let opc: Vec<u8> = vec![0x0F, 0x05];
            assert(opc@ =~= seq![0x0Fu8, 0x05u8]);
            append_code_bytes(output, opc);
            assert(output.model() == spec_assemble_instruction(m0, instr0)->0);
        },
        Instruction::Leave => {
            let opc: Vec<u8> = vec![0xC9];
            assert(opc@ =~= seq![0xC9u8]);
            append_code_bytes(output, opc);
            assert(output.model() == spec_assemble_instruction(m0, instr0)->0);
        },
        Instruction::Ret => {
            let opc: Vec<u8> = vec![0xC3];
            assert(opc@ =~= seq![0xC3u8]);
            append_code_bytes(output, opc);
            assert(output.model() == spec_assemble_instruction(m0, instr0)->0);
        },
        Instruction::Call(Operand::Immediate(immediate)) => {
            let opc: Vec<u8> = vec![0xE8];
            assert(opc@ =~= seq![0xE8u8]);
            append_code_bytes(output, opc);
            add_offset(output, immediate, 4, LabelType::Relative);
            assert(output.model() == spec_assemble_instruction(m0, instr0)->0);
        },
        Instruction::Jmp(Operand::Immediate(immediate)) => {
            let opc: Vec<u8> = vec![0xE9];
            assert(opc@ =~= seq![0xE9u8]);
            append_code_bytes(output, opc);
            add_offset(output, immediate, 4, LabelType::Relative);
            assert(output.model() == spec_assemble_instruction(m0, instr0)->0);
        },
        Instruction::Pop(Operand::Register(reg)) if is_64bit_reg(&reg) => {
            let opc: Vec<u8> = vec![0x8F];
            assert(opc@ =~= seq![0x8Fu8]);
            add_rex_opcode_modrm_offset(output, opc, Operand::Register(reg), RegValue::Empty);
            assert(output.model() == spec_assemble_instruction(m0, instr0)->0);
        },
        Instruction::Push(Operand::Immediate(immediate)) => {
            let opc: Vec<u8> = vec![0x68];
            assert(opc@ =~= seq![0x68u8]);
            append_code_bytes(output, opc);
            add_immediate(output, immediate, 4);
            assert(output.model() == spec_assemble_instruction(m0, instr0)->0);
        },
        Instruction::Push(reg) => {
            let opc: Vec<u8> = vec![0xFF];
            assert(opc@ =~= seq![0xFFu8]);
            add_rex_opcode_modrm64bit(output, opc, reg, RegValue::Extension(0x06));
            assert(output.model() == spec_assemble_instruction(m0, instr0)->0);
        },
        Instruction::Sub(Operand::Register(reg), Operand::Immediate(val))
            if is_32bit_reg(&reg) || is_64bit_reg(&reg) => {
            let opc: Vec<u8> = vec![0x81];
            assert(opc@ =~= seq![0x81u8]);
            add_rex_opcode_modrm_offset(output, opc, Operand::Register(reg), RegValue::Extension(5));
            add_immediate(output, val, 4);
            assert(output.model() == spec_assemble_instruction(m0, instr0)->0);
        },
        Instruction::Add(Operand::Register(reg), Operand::Immediate(val))
            if is_32bit_reg(&reg) || is_64bit_reg(&reg) => {
            let opc: Vec<u8> = vec![0x81];
            assert(opc@ =~= seq![0x81u8]);
            add_rex_opcode_modrm_offset(output, opc, Operand::Register(reg), RegValue::Extension(0));
            add_immediate(output, val, 4);
            assert(output.model() == spec_assemble_instruction(m0, instr0)->0);
        },
        Instruction::Cmp(Operand::Register(reg), Operand::Immediate(val))
            if is_32bit_reg(&reg) || is_64bit_reg(&reg) => {
            let opc: Vec<u8> = vec![0x81];
            assert(opc@ =~= seq![0x81u8]);
            add_rex_opcode_modrm_offset(output, opc, Operand::Register(reg), RegValue::Extension(7));
            add_immediate(output, val, 4);
            assert(output.model() == spec_assemble_instruction(m0, instr0)->0);
        },
        Instruction::Cmp(Operand::Register(rm), Operand::Register(reg))
            if is_32bit_reg(&reg) || is_64bit_reg(&reg) => {
            let opc: Vec<u8> = vec![0x39];
            assert(opc@ =~= seq![0x39u8]);
            add_rex_opcode_modrm_offset(output, opc, Operand::Register(rm), RegValue::Register(reg));
            assert(output.model() == spec_assemble_instruction(m0, instr0)->0);
        },
        Instruction::JE(op) => {
            let opc: Vec<u8> = vec![0x0F, 0x84];
            assert(opc@ =~= seq![0x0Fu8, 0x84u8]);
            append_code_bytes(output, opc);
            add_offset(output, op, 4, LabelType::Relative);
            assert(output.model() == spec_assemble_instruction(m0, instr0)->0);
        },
        Instruction::JNE(op) => {
            let opc: Vec<u8> = vec![0x0F, 0x85];
            assert(opc@ =~= seq![0x0Fu8, 0x85u8]);
            append_code_bytes(output, opc);
            add_offset(output, op, 4, LabelType::Relative);
            assert(output.model() == spec_assemble_instruction(m0, instr0)->0);
        },
        Instruction::Add(Operand::Register(reg), Operand::Register(rm))
            if is_32bit_reg(&reg) || is_64bit_reg(&reg) => {
            let opc: Vec<u8> = vec![0x03];
            assert(opc@ =~= seq![0x03u8]);
            add_rex_opcode_modrm_offset(output, opc, Operand::Register(rm), RegValue::Register(reg));
            assert(output.model() == spec_assemble_instruction(m0, instr0)->0);
        },
        Instruction::Sub(Operand::Register(reg), Operand::Register(rm))
            if is_32bit_reg(&reg) || is_64bit_reg(&reg) => {
            let opc: Vec<u8> = vec![0x2B];
            assert(opc@ =~= seq![0x2Bu8]);
            add_rex_opcode_modrm_offset(output, opc, Operand::Register(rm), RegValue::Register(reg));
            assert(output.model() == spec_assemble_instruction(m0, instr0)->0);
        },
        Instruction::IMul(Operand::Register(reg), Operand::Register(rm))
            if is_32bit_reg(&reg) || is_64bit_reg(&reg) => {
            let opc: Vec<u8> = vec![0x0F, 0xAF];
            assert(opc@ =~= seq![0x0Fu8, 0xAFu8]);
            add_rex_opcode_modrm_offset(output, opc, Operand::Register(rm), RegValue::Register(reg));
            assert(output.model() == spec_assemble_instruction(m0, instr0)->0);
        },
        Instruction::And(Operand::Register(rm), Operand::Register(reg))
            if is_32bit_reg(&reg) || is_64bit_reg(&reg) => {
            let opc: Vec<u8> = vec![0x21];
            assert(opc@ =~= seq![0x21u8]);
            add_rex_opcode_modrm_offset(output, opc, Operand::Register(rm), RegValue::Register(reg));
            assert(output.model() == spec_assemble_instruction(m0, instr0)->0);
        },
        Instruction::Or(Operand::Register(rm), Operand::Register(reg))
            if is_32bit_reg(&reg) || is_64bit_reg(&reg) => {
            let opc: Vec<u8> = vec![0x09];
            assert(opc@ =~= seq![0x09u8]);
            add_rex_opcode_modrm_offset(output, opc, Operand::Register(rm), RegValue::Register(reg));
            assert(output.model() == spec_assemble_instruction(m0, instr0)->0);
        },
        Instruction::SetL(Operand::Register(rm)) if is_8bit_reg(&rm) => {
            let opc: Vec<u8> = vec![0x0F, 0x9C];
            assert(opc@ =~= seq![0x0Fu8, 0x9Cu8]);
            add_rex_opcode_modrm_offset(output, opc, Operand::Register(rm), RegValue::Empty);
            assert(output.model() == spec_assemble_instruction(m0, instr0)->0);
        },
        Instruction::SetLE(Operand::Register(rm)) if is_8bit_reg(&rm) => {
            let opc: Vec<u8> = vec![0x0F, 0x9E];
            assert(opc@ =~= seq![0x0Fu8, 0x9Eu8]);
            add_rex_opcode_modrm_offset(output, opc, Operand::Register(rm), RegValue::Empty);
            assert(output.model() == spec_assemble_instruction(m0, instr0)->0);
        },
        Instruction::SetE(Operand::Register(rm)) if is_8bit_reg(&rm) => {
            let opc: Vec<u8> = vec![0x0F, 0x94];
            assert(opc@ =~= seq![0x0Fu8, 0x94u8]);
            add_rex_opcode_modrm_offset(output, opc, Operand::Register(rm), RegValue::Empty);
            assert(output.model() == spec_assemble_instruction(m0, instr0)->0);
        },
        Instruction::SetG(Operand::Register(rm)) if is_8bit_reg(&rm) => {
            let opc: Vec<u8> = vec![0x0F, 0x9F];
            assert(opc@ =~= seq![0x0Fu8, 0x9Fu8]);
            add_rex_opcode_modrm_offset(output, opc, Operand::Register(rm), RegValue::Empty);
            assert(output.model() == spec_assemble_instruction(m0, instr0)->0);
        },
        Instruction::SetGE(Operand::Register(rm)) if is_8bit_reg(&rm) => {
            let opc: Vec<u8> = vec![0x0F, 0x9D];
            assert(opc@ =~= seq![0x0Fu8, 0x9Du8]);
            add_rex_opcode_modrm_offset(output, opc, Operand::Register(rm), RegValue::Empty);
            assert(output.model() == spec_assemble_instruction(m0, instr0)->0);
        },
        Instruction::SetNE(Operand::Register(rm)) if is_8bit_reg(&rm) => {
            let opc: Vec<u8> = vec![0x0F, 0x95];
            assert(opc@ =~= seq![0x0Fu8, 0x95u8]);
            add_rex_opcode_modrm_offset(output, opc, Operand::Register(rm), RegValue::Empty);
            assert(output.model() == spec_assemble_instruction(m0, instr0)->0);
        },
        Instruction::LEA(Operand::Register(reg), rm) if is_32bit_reg(&reg) || is_64bit_reg(&reg) => {
            let opc: Vec<u8> = vec![0x8D];
            assert(opc@ =~= seq![0x8Du8]);
            add_rex_opcode_modrm_offset(output, opc, rm, RegValue::Register(reg));
            assert(output.model() == spec_assemble_instruction(m0, instr0)->0);
        },
        Instruction::IDiv(Operand::Register(rm)) if is_32bit_reg(&rm) || is_64bit_reg(&rm) => {
            let opc: Vec<u8> = vec![0xF7];
            assert(opc@ =~= seq![0xF7u8]);
            add_rex_opcode_modrm_offset(output, opc, Operand::Register(rm), RegValue::Extension(7));
            assert(output.model() == spec_assemble_instruction(m0, instr0)->0);
        },
        Instruction::Xor(Operand::Register(reg), Operand::Immediate(val))
            if is_32bit_reg(&reg) || is_64bit_reg(&reg) => {
            let opc: Vec<u8> = vec![0x81];
            assert(opc@ =~= seq![0x81u8]);
            add_rex_opcode_modrm_offset(output, opc, Operand::Register(reg), RegValue::Extension(6));
            add_immediate(output, val, 4);
            assert(output.model() == spec_assemble_instruction(m0, instr0)->0);
        },
        Instruction::MovZX(Operand::Register(reg), rm)
            if (is_32bit_reg(&reg) || is_64bit_reg(&reg)) && is_memory(&rm) => {
            let opc: Vec<u8> = vec![0x0F, 0xB6];
            assert(opc@ =~= seq![0x0Fu8, 0xB6u8]);
            add_rex_opcode_modrm_offset(output, opc, rm, RegValue::Register(reg));
            assert(output.model() == spec_assemble_instruction(m0, instr0)->0);
        },
        _ => {},
    }
}

} // verus!
