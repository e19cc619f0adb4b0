//! Which instruction machine code is, read the way the x86-64 processor manual lays out
//! instructions: an optional REX prefix, a one-byte opcode or `0F` and a second byte, and
//! for some opcodes the operation chosen by the reg field of the mod/rm byte.
use vstd::prelude::*;

use crate::assembling::assemble_instruction::{
    lemma_add_offset_appends, spec_assemble_instruction, spec_is_32or64, spec_is_memory, spec_modrm_step, spec_then_offset,
};
use crate::assembling::assemble_instruction_part::{spec_add_offset, spec_to_reg32_operand, spec_to_reg32_value};
use crate::assembling::LabelType;
use crate::assembling::assemble_instruction_part::{
    lemma_reg64_to_reg32, lemma_reg_bits, spec_memory_modrm, spec_reg64_to_reg32, spec_reg_bits, spec_reg_value_bits,
    spec_rex_opcode_modrm, spec_rex_opcode_modrm_operand, spec_rex_prefix, spec_to_byte, RegValue,
};
use crate::assembling::assembly::{spec_is_64bit_reg, spec_is_8bit_reg, ImmediateValue, Instruction, Operand, Register};
use crate::assembling::AsmModel;
use crate::little_endian::{le_value, lemma_le_bytes_len, lemma_le_value_of_bytes, pow256};

verus! {

/// The condition of a conditional jump or set-byte instruction.
pub enum Condition {
    Equal,
    NotEqual,
    Less,
    LessOrEqual,
    Greater,
    GreaterOrEqual,
}

/// The operation an instruction performs, as the manual names it.
pub enum Operation {
    Syscall,
    Leave,
    Ret,
    Call,
    Jmp,
    JumpIf(Condition),
    SetIf(Condition),
    MovImmediate,
    MovStore,
    MovZeroExtend,
    Pop,
    Push,
    PushImmediate,
    AddImmediate,
    SubImmediate,
    CmpImmediate,
    XorImmediate,
    Add,
    Sub,
    Cmp,
    And,
    Or,
    IMul,
    IDiv,
    Lea,
}

/// A REX prefix byte.
pub open spec fn is_rex(b: u8) -> bool {
    0x40 <= b <= 0x4F
}

/// The operation chosen by an opcode, given the byte after it (the second opcode byte
/// after `0F`) and the reg field of the mod/rm byte, where the opcode has one.
pub open spec fn opcode_operation(op1: u8, op2: u8, ext: u8) -> Option<Operation> {
    if op1 == 0x0F {
        if op2 == 0x05 {
            Some(Operation::Syscall)
        } else if op2 == 0x84 {
            Some(Operation::JumpIf(Condition::Equal))
        } else if op2 == 0x85 {
            Some(Operation::JumpIf(Condition::NotEqual))
        } else if op2 == 0x94 {
            Some(Operation::SetIf(Condition::Equal))
        } else if op2 == 0x95 {
            Some(Operation::SetIf(Condition::NotEqual))
        } else if op2 == 0x9C {
            Some(Operation::SetIf(Condition::Less))
        } else if op2 == 0x9D {
            Some(Operation::SetIf(Condition::GreaterOrEqual))
        } else if op2 == 0x9E {
            Some(Operation::SetIf(Condition::LessOrEqual))
        } else if op2 == 0x9F {
            Some(Operation::SetIf(Condition::Greater))
        } else if op2 == 0xAF {
            Some(Operation::IMul)
        } else if op2 == 0xB6 {
            Some(Operation::MovZeroExtend)
        } else {
            None
        }
    } else if op1 == 0x03 {
        Some(Operation::Add)
    } else if op1 == 0x09 {
        Some(Operation::Or)
    } else if op1 == 0x21 {
        Some(Operation::And)
    } else if op1 == 0x2B {
        Some(Operation::Sub)
    } else if op1 == 0x39 {
        Some(Operation::Cmp)
    } else if op1 == 0x68 {
        Some(Operation::PushImmediate)
    } else if op1 == 0x81 {
        if ext == 0 {
            Some(Operation::AddImmediate)
        } else if ext == 5 {
            Some(Operation::SubImmediate)
        } else if ext == 6 {
            Some(Operation::XorImmediate)
        } else if ext == 7 {
            Some(Operation::CmpImmediate)
        } else {
            None
        }
    } else if op1 == 0x89 {
        Some(Operation::MovStore)
    } else if op1 == 0x8D {
        Some(Operation::Lea)
    } else if op1 == 0x8F {
        if ext == 0 { Some(Operation::Pop) } else { None }
    } else if op1 == 0xC3 {
        Some(Operation::Ret)
    } else if op1 == 0xC7 {
        if ext == 0 { Some(Operation::MovImmediate) } else { None }
    } else if op1 == 0xC9 {
        Some(Operation::Leave)
    } else if op1 == 0xE8 {
        Some(Operation::Call)
    } else if op1 == 0xE9 {
        Some(Operation::Jmp)
    } else if op1 == 0xF7 {
        if ext == 7 { Some(Operation::IDiv) } else { None }
    } else if op1 == 0xFF {
        if ext == 6 { Some(Operation::Push) } else { None }
    } else {
        None
    }
}

/// The operation of the instruction that machine code starts with.
pub open spec fn decode(code: Seq<u8>) -> Option<Operation> {
    let k: int = if code.len() > 0 && is_rex(code[0]) { 1 } else { 0 };
    if code.len() < k + 2 {
        if code.len() == k + 1 { opcode_operation(code[k], 0, 8) } else { None }
    } else {
        let modrm: int = if code[k] == 0x0F { k + 2 } else { k + 1 };
        let ext = if modrm < code.len() { (code[modrm] >> 3u8) & 7u8 } else { 8u8 };
        opcode_operation(code[k], code[k + 1], ext)
    }
}

/// The operation an instruction of the assembly stands for.
pub open spec fn operation_of(instruction: Instruction) -> Option<Operation> {
    match instruction {
        Instruction::Mov(_, Operand::Immediate(_)) => Some(Operation::MovImmediate),
        Instruction::Mov(_, _) => Some(Operation::MovStore),
        Instruction::MovZX(_, _) => Some(Operation::MovZeroExtend),
        Instruction::Syscall => Some(Operation::Syscall),
        Instruction::Jmp(_) => Some(Operation::Jmp),
        Instruction::JE(_) => Some(Operation::JumpIf(Condition::Equal)),
        Instruction::JNE(_) => Some(Operation::JumpIf(Condition::NotEqual)),
        Instruction::Pop(_) => Some(Operation::Pop),
        Instruction::Push(Operand::Immediate(_)) => Some(Operation::PushImmediate),
        Instruction::Push(_) => Some(Operation::Push),
        Instruction::Call(_) => Some(Operation::Call),
        Instruction::Leave => Some(Operation::Leave),
        Instruction::Ret => Some(Operation::Ret),
        Instruction::Sub(_, Operand::Immediate(_)) => Some(Operation::SubImmediate),
        Instruction::Sub(_, _) => Some(Operation::Sub),
        Instruction::Cmp(_, Operand::Immediate(_)) => Some(Operation::CmpImmediate),
        Instruction::Cmp(_, _) => Some(Operation::Cmp),
        Instruction::Add(_, Operand::Immediate(_)) => Some(Operation::AddImmediate),
        Instruction::Add(_, _) => Some(Operation::Add),
        Instruction::IMul(_, _) => Some(Operation::IMul),
        Instruction::IDiv(_) => Some(Operation::IDiv),
        Instruction::And(_, _) => Some(Operation::And),
        Instruction::Or(_, _) => Some(Operation::Or),
        Instruction::Xor(_, Operand::Immediate(_)) => Some(Operation::XorImmediate),
        Instruction::SetL(_) => Some(Operation::SetIf(Condition::Less)),
        Instruction::SetLE(_) => Some(Operation::SetIf(Condition::LessOrEqual)),
        Instruction::SetG(_) => Some(Operation::SetIf(Condition::Greater)),
        Instruction::SetGE(_) => Some(Operation::SetIf(Condition::GreaterOrEqual)),
        Instruction::SetE(_) => Some(Operation::SetIf(Condition::Equal)),
        Instruction::SetNE(_) => Some(Operation::SetIf(Condition::NotEqual)),
        Instruction::LEA(_, _) => Some(Operation::Lea),
        _ => None,
    }
}

/// A REX prefix, where there is one, is a single byte in the REX range.
proof fn lemma_rex_prefix(w: bool, r: bool, b: bool)
    ensures
        spec_rex_prefix(w, r, b).len() <= 1,
        spec_rex_prefix(w, r, b).len() == 1 ==> is_rex(spec_rex_prefix(w, r, b)[0]),
{
    let x = spec_to_byte(w);
    let y = spec_to_byte(r);
    let z = spec_to_byte(b);
    let f = spec_to_byte(false);
    assert(x <= 1 && y <= 1 && z <= 1 && f == 0);
    assert(0x40 <= ((0b0100u8 << 4u8) | x << 3u8 | y << 2u8 | f << 1u8 | z) <= 0x4F) by (bit_vector)
        requires
            x <= 1,
            y <= 1,
            z <= 1,
            f == 0,
    ;
}

/// The reg field of a mod/rm byte built from a mode, a reg value and an r/m value.
proof fn lemma_modrm_ext(mode: u8, reg_bits: u8, rm_bits: u8)
    requires
        mode <= 3,
    ensures
        ((mode << 6u8) | (reg_bits & 0b111u8) << 3u8 | (rm_bits & 0b111u8)) >> 3u8 & 7u8 == reg_bits & 7u8,
        (((mode << 6u8) | ((reg_bits & 0b111u8) << 3u8) | (rm_bits & 0b111u8)) >> 3u8) & 7u8 == reg_bits & 7u8,
        (((reg_bits & 0b111u8) << 3u8) | (rm_bits & 0b111u8)) >> 3u8 & 7u8 == reg_bits & 7u8,
{
    assert(((mode << 6u8) | (reg_bits & 0b111u8) << 3u8 | (rm_bits & 0b111u8)) >> 3u8 & 7u8 == reg_bits & 7u8) by (bit_vector)
        requires
            mode <= 3,
    ;
    assert((((reg_bits & 0b111u8) << 3u8) | (rm_bits & 0b111u8)) >> 3u8 & 7u8 == reg_bits & 7u8) by (bit_vector);
}

/// An opcode the decoder reads in one byte or as `0F` and a second byte.
pub open spec fn opcode_form(opcode: Seq<u8>) -> bool {
    &&& 1 <= opcode.len() <= 2
    &&& !is_rex(opcode[0])
    &&& opcode.len() == 2 <==> opcode[0] == 0x0F
}

/// The operation of an opcode followed by a mod/rm byte with the given reg field.
pub open spec fn modrm_operation(opcode: Seq<u8>, ext: u8) -> Option<Operation> {
    opcode_operation(opcode[0], if opcode.len() == 2 { opcode[1] } else { 0 }, ext)
}

/// The encoding of an instruction with an r/m operand: an optional REX prefix, the
/// opcode, a mod/rm byte whose reg field is the reg value's low three bits, and the rest.
#[verifier::spinoff_prover]
#[verifier::rlimit(40)]
proof fn lemma_modrm_parts(opcode: Seq<u8>, rm: Operand, reg: RegValue) -> (parts: (Seq<u8>, u8))
    requires
        spec_rex_opcode_modrm_operand(opcode, rm, reg) is Some,
    ensures
        parts.0.len() <= 1,
        parts.0.len() == 1 ==> is_rex(parts.0[0]),
        ({
            let b = spec_rex_opcode_modrm_operand(opcode, rm, reg)->0;
            let n = (parts.0.len() + opcode.len()) as int;
            &&& b.len() > n
            &&& b.subrange(0, parts.0.len() as int) == parts.0
            &&& b.subrange(parts.0.len() as int, n) == opcode
            &&& b[n] == parts.1
        }),
        (parts.1 >> 3u8) & 7u8 == spec_reg_value_bits(reg) & 7u8,
{
    let b = spec_rex_opcode_modrm_operand(opcode, rm, reg)->0;
    let reg_bits = spec_reg_value_bits(reg);
    let reg_is_64 = match reg {
        RegValue::Register(r) => spec_is_64bit_reg(r),
        _ => false,
    };
    match rm {
        Operand::Register(r) => {
            let rm_bits = spec_reg_bits(r);
            lemma_modrm_ext(3, reg_bits, rm_bits);
            let rex = spec_rex_prefix(spec_is_64bit_reg(r), (reg_bits >> 3u8) == 1, (rm_bits >> 3u8) == 1);
            lemma_rex_prefix(spec_is_64bit_reg(r), (reg_bits >> 3u8) == 1, (rm_bits >> 3u8) == 1);
            let first = (0b11u8 << 6u8) | (reg_bits & 0b111u8) << 3u8 | (rm_bits & 0b111u8);
            assert(b == rex + opcode + seq![first]);
            assert(b.subrange(0, rex.len() as int) =~= rex);
            assert(b.subrange(rex.len() as int, (rex.len() + opcode.len()) as int) =~= opcode);
            (rex, first)
        },
        Operand::Indirect(base) => {
            let x = spec_reg_bits(base);
            lemma_modrm_ext(1, reg_bits, x);
            lemma_modrm_ext(0, reg_bits, x);
            let rex = spec_rex_prefix(reg_is_64, (reg_bits >> 3u8) == 1, (x >> 3u8) == 1);
            lemma_rex_prefix(reg_is_64, (reg_bits >> 3u8) == 1, (x >> 3u8) == 1);
            let tail = spec_memory_modrm(base, reg_bits, None);
            assert(b == rex + opcode + tail);
            assert(b.subrange(0, rex.len() as int) =~= rex);
            assert(b.subrange(rex.len() as int, (rex.len() + opcode.len()) as int) =~= opcode);
            (rex, tail[0])
        },
        Operand::IndirectDisplacement(base, d) => {
            let x = spec_reg_bits(base);
            lemma_modrm_ext(2, reg_bits, x);
            let rex = spec_rex_prefix(reg_is_64, (reg_bits >> 3u8) == 1, (x >> 3u8) == 1);
            lemma_rex_prefix(reg_is_64, (reg_bits >> 3u8) == 1, (x >> 3u8) == 1);
            let tail = spec_memory_modrm(base, reg_bits, Some(d));
            assert(b == rex + opcode + tail);
            assert(b.subrange(0, rex.len() as int) =~= rex);
            assert(b.subrange(rex.len() as int, (rex.len() + opcode.len()) as int) =~= opcode);
            (rex, tail[0])
        },
        Operand::Immediate(_) => (Seq::empty(), 0u8),
    }
}

/// Code made of an optional REX prefix, an opcode and a mod/rm byte (and whatever follows)
/// reads as the opcode's operation, chosen by the reg field where the opcode needs it.
proof fn lemma_decode_modrm(opcode: Seq<u8>, rm: Operand, reg: RegValue, more: Seq<u8>)
    requires
        opcode_form(opcode),
        spec_rex_opcode_modrm_operand(opcode, rm, reg) is Some,
    ensures
        decode(spec_rex_opcode_modrm_operand(opcode, rm, reg)->0 + more) == modrm_operation(opcode, spec_reg_value_bits(reg) & 7u8),
{
    let b = spec_rex_opcode_modrm_operand(opcode, rm, reg)->0;
    let code = b + more;
    let parts = lemma_modrm_parts(opcode, rm, reg);
    let rex = parts.0;
    let first = parts.1;
    let k = rex.len() as int;
    let n = k + opcode.len();
    if k == 1 {
        assert(b.subrange(0, k)[0] == b[0]);
    }
    assert(code[0] == b[0]);
    assert(b.subrange(k, n)[0] == b[k]);
    assert(code[k] == opcode[0]);
    assert(code[k + 1] == b[k + 1]);
    assert(code[n] == first);
    if opcode.len() == 2 {
        assert(b.subrange(k, n)[1] == b[k + 1]);
        assert(code[k + 1] == opcode[1]);
    }
    if k == 0 {
        assert(!is_rex(code[0]));
    } else {
        assert(is_rex(code[0]));
    }
}

/// Code that starts with an opcode (and whatever follows) reads as the opcode's
/// operation, for an opcode that needs no reg field.
proof fn lemma_decode_plain(opcode: Seq<u8>, more: Seq<u8>)
    requires
        opcode_form(opcode),
        forall|e1: u8, e2: u8| #[trigger] modrm_operation(opcode, e1) == #[trigger] modrm_operation(opcode, e2),
    ensures
        decode(opcode + more) == modrm_operation(opcode, 0),
{
    let code = opcode + more;
    assert(code[0] == opcode[0]);
    if opcode.len() == 2 {
        assert(code[1] == opcode[1]);
    }
    if code.len() >= 2 {
        let modrm: int = if code[0] == 0x0F { 2 } else { 1 };
        let ext = if modrm < code.len() { (code[modrm] >> 3u8) & 7u8 } else { 8u8 };
        assert(modrm_operation(opcode, ext) == modrm_operation(opcode, 0));
    } else {
        assert(modrm_operation(opcode, 8) == modrm_operation(opcode, 0));
    }
}

/// Code that begins with the old code and then some bytes: what comes after the old code
/// is those bytes and what follows them.
proof fn lemma_appended(old_code: Seq<u8>, bytes: Seq<u8>, code: Seq<u8>)
    requires
        code.len() >= old_code.len() + bytes.len(),
        code.subrange(0, (old_code.len() + bytes.len()) as int) == old_code + bytes,
    ensures
        code.subrange(0, old_code.len() as int) == old_code,
        code.skip(old_code.len() as int) == bytes + code.skip((old_code.len() + bytes.len()) as int),
{
    assert(code.subrange(0, old_code.len() as int) =~= (old_code + bytes).subrange(0, old_code.len() as int));
    assert(code.skip(old_code.len() as int) =~= bytes + code.skip((old_code.len() + bytes.len()) as int)) by {
        assert forall|i: int| 0 <= i < bytes.len() implies code.skip(old_code.len() as int)[i] == bytes[i] by {
            assert(code[old_code.len() + i] == (old_code + bytes)[old_code.len() + i]);
        }
    }
}

/// An instruction encoded with an r/m operand and nothing after it.
proof fn lemma_decodes_modrm_step(m: AsmModel, opcode: Seq<u8>, rm: Operand, reg: RegValue)
    requires
        opcode_form(opcode),
        spec_modrm_step(m, opcode, rm, reg) is Some,
    ensures
        ({
            let r = spec_modrm_step(m, opcode, rm, reg)->0;
            &&& r.code.len() > m.code.len()
            &&& r.code.subrange(0, m.code.len() as int) == m.code
            &&& decode(r.code.skip(m.code.len() as int)) == modrm_operation(opcode, spec_reg_value_bits(reg) & 7u8)
        }),
{
    let b = spec_rex_opcode_modrm_operand(opcode, rm, reg)->0;
    let r = spec_modrm_step(m, opcode, rm, reg)->0;
    lemma_modrm_parts(opcode, rm, reg);
    lemma_decode_modrm(opcode, rm, reg, Seq::empty());
    assert(b + Seq::<u8>::empty() =~= b);
    assert(r.code.subrange(0, (m.code.len() + b.len()) as int) =~= m.code + b);
    lemma_appended(m.code, b, r.code);
    assert(r.code.skip((m.code.len() + b.len()) as int) =~= Seq::<u8>::empty());
}

/// An instruction encoded with an r/m operand and then an immediate or offset.
proof fn lemma_decodes_modrm_offset(m: AsmModel, opcode: Seq<u8>, rm: Operand, reg: RegValue, offset: ImmediateValue, label_type: LabelType)
    requires
        opcode_form(opcode),
        spec_then_offset(spec_modrm_step(m, opcode, rm, reg), offset, 4, label_type) is Some,
    ensures
        ({
            let r = spec_then_offset(spec_modrm_step(m, opcode, rm, reg), offset, 4, label_type)->0;
            &&& r.code.len() > m.code.len()
            &&& r.code.subrange(0, m.code.len() as int) == m.code
            &&& decode(r.code.skip(m.code.len() as int)) == modrm_operation(opcode, spec_reg_value_bits(reg) & 7u8)
        }),
{
    let b = spec_rex_opcode_modrm_operand(opcode, rm, reg)->0;
    let m1 = spec_modrm_step(m, opcode, rm, reg)->0;
    let r = spec_add_offset(m1, offset, 4, label_type)->0;
    lemma_modrm_parts(opcode, rm, reg);
    lemma_add_offset_appends(m1, offset, 4, label_type);
    assert(m1.code == m.code + b);
    lemma_appended(m.code, b, r.code);
    lemma_decode_modrm(opcode, rm, reg, r.code.skip((m.code.len() + b.len()) as int));
}

/// An instruction that is its opcode alone.
proof fn lemma_decodes_plain(m: AsmModel, opcode: Seq<u8>)
    requires
        opcode_form(opcode),
        forall|e1: u8, e2: u8| #[trigger] modrm_operation(opcode, e1) == #[trigger] modrm_operation(opcode, e2),
    ensures
        ({
            let r = m.append_code(opcode);
            &&& r.code.len() > m.code.len()
            &&& r.code.subrange(0, m.code.len() as int) == m.code
            &&& decode(r.code.skip(m.code.len() as int)) == modrm_operation(opcode, 0)
        }),
{
    let r = m.append_code(opcode);
    lemma_decode_plain(opcode, Seq::empty());
    assert(opcode + Seq::<u8>::empty() =~= opcode);
    assert(r.code.subrange(0, (m.code.len() + opcode.len()) as int) =~= m.code + opcode);
    lemma_appended(m.code, opcode, r.code);
    assert(r.code.skip((m.code.len() + opcode.len()) as int) =~= Seq::<u8>::empty());
}

/// An instruction that is its opcode and then an offset.
proof fn lemma_decodes_plain_offset(m: AsmModel, opcode: Seq<u8>, offset: ImmediateValue, label_type: LabelType)
    requires
        opcode_form(opcode),
        forall|e1: u8, e2: u8| #[trigger] modrm_operation(opcode, e1) == #[trigger] modrm_operation(opcode, e2),
        spec_add_offset(m.append_code(opcode), offset, 4, label_type) is Some,
    ensures
        ({
            let r = spec_add_offset(m.append_code(opcode), offset, 4, label_type)->0;
            &&& r.code.len() > m.code.len()
            &&& r.code.subrange(0, m.code.len() as int) == m.code
            &&& decode(r.code.skip(m.code.len() as int)) == modrm_operation(opcode, 0)
        }),
{
    let m1 = m.append_code(opcode);
    let r = spec_add_offset(m1, offset, 4, label_type)->0;
    lemma_add_offset_appends(m1, offset, 4, label_type);
    lemma_appended(m.code, opcode, r.code);
    lemma_decode_plain(opcode, r.code.skip((m.code.len() + opcode.len()) as int));
}

/// Every instruction the assembler encodes appends machine code to the code, and that
/// machine code reads, by the processor manual's opcode tables, as the instruction's own
/// operation: a `JE` as a jump taken on equal (`0F 84`), a `JNE` as one taken on not
/// equal (`0F 85`), a `SetL` as set-if-less (`0F 9C`), an `Add` with an immediate as the
/// add of opcode group `81` (reg field 0), and so on.
#[verifier::spinoff_prover]
#[verifier::rlimit(80)]
pub proof fn lemma_encoding_decodes(m: AsmModel, instruction: Instruction)
    requires
        spec_assemble_instruction(m, instruction) is Some,
        !(instruction is ILabel),
    ensures
        ({
            let r = spec_assemble_instruction(m, instruction)->0;
            &&& r.code.len() > m.code.len()
            &&& r.code.subrange(0, m.code.len() as int) == m.code
            &&& operation_of(instruction) is Some
            &&& decode(r.code.skip(m.code.len() as int)) == operation_of(instruction)
        }),
{
    assert(0u8 & 7u8 == 0u8 && 5u8 & 7u8 == 5u8 && 6u8 & 7u8 == 6u8 && 7u8 & 7u8 == 7u8) by (bit_vector);
    match instruction {
        Instruction::Mov(Operand::Register(reg), Operand::Immediate(val)) if spec_is_32or64(reg) => {
            lemma_decodes_modrm_offset(m, seq![0xC7u8], Operand::Register(reg), RegValue::Empty, val, LabelType::Absolute);
        },
        Instruction::Mov(rm, Operand::Register(reg)) => {
            lemma_decodes_modrm_step(m, seq![0x89u8], rm, RegValue::Register(reg));
        },
        Instruction::Syscall => {
            lemma_decodes_plain(m, seq![0x0Fu8, 0x05u8]);
        },
        Instruction::Leave => {
            lemma_decodes_plain(m, seq![0xC9u8]);
        },
        Instruction::Ret => {
            lemma_decodes_plain(m, seq![0xC3u8]);
        },
        Instruction::Call(Operand::Immediate(immediate)) => {
            lemma_decodes_plain_offset(m, seq![0xE8u8], immediate, LabelType::Relative);
        },
        Instruction::Jmp(Operand::Immediate(immediate)) => {
            lemma_decodes_plain_offset(m, seq![0xE9u8], immediate, LabelType::Relative);
        },
        Instruction::Pop(Operand::Register(reg)) if spec_is_64bit_reg(reg) => {
            lemma_decodes_modrm_step(m, seq![0x8Fu8], Operand::Register(reg), RegValue::Empty);
        },
        Instruction::Push(Operand::Immediate(immediate)) => {
            lemma_decodes_plain_offset(m, seq![0x68u8], immediate, LabelType::Absolute);
        },
        Instruction::Push(reg) => {
            lemma_decodes_modrm_step(m, seq![0xFFu8], spec_to_reg32_operand(reg), spec_to_reg32_value(RegValue::Extension(0x06)));
        },
        Instruction::Sub(Operand::Register(reg), Operand::Immediate(val)) if spec_is_32or64(reg) => {
            lemma_decodes_modrm_offset(m, seq![0x81u8], Operand::Register(reg), RegValue::Extension(5), val, LabelType::Absolute);
        },
        Instruction::Add(Operand::Register(reg), Operand::Immediate(val)) if spec_is_32or64(reg) => {
            lemma_decodes_modrm_offset(m, seq![0x81u8], Operand::Register(reg), RegValue::Extension(0), val, LabelType::Absolute);
        },
        Instruction::Cmp(Operand::Register(reg), Operand::Immediate(val)) if spec_is_32or64(reg) => {
            lemma_decodes_modrm_offset(m, seq![0x81u8], Operand::Register(reg), RegValue::Extension(7), val, LabelType::Absolute);
        },
        Instruction::Cmp(Operand::Register(rm), Operand::Register(reg)) if spec_is_32or64(reg) => {
            lemma_decodes_modrm_step(m, seq![0x39u8], Operand::Register(rm), RegValue::Register(reg));
        },
        Instruction::JE(op) => {
            lemma_decodes_plain_offset(m, seq![0x0Fu8, 0x84u8], op, LabelType::Relative);
        },
        Instruction::JNE(op) => {
            lemma_decodes_plain_offset(m, seq![0x0Fu8, 0x85u8], op, LabelType::Relative);
        },
        Instruction::Add(Operand::Register(reg), Operand::Register(rm)) if spec_is_32or64(reg) => {
            lemma_decodes_modrm_step(m, seq![0x03u8], Operand::Register(rm), RegValue::Register(reg));
        },
        Instruction::Sub(Operand::Register(reg), Operand::Register(rm)) if spec_is_32or64(reg) => {
            lemma_decodes_modrm_step(m, seq![0x2Bu8], Operand::Register(rm), RegValue::Register(reg));
        },
        Instruction::IMul(Operand::Register(reg), Operand::Register(rm)) if spec_is_32or64(reg) => {
            lemma_decodes_modrm_step(m, seq![0x0Fu8, 0xAFu8], Operand::Register(rm), RegValue::Register(reg));
        },
        Instruction::And(Operand::Register(rm), Operand::Register(reg)) if spec_is_32or64(reg) => {
            lemma_decodes_modrm_step(m, seq![0x21u8], Operand::Register(rm), RegValue::Register(reg));
        },
        Instruction::Or(Operand::Register(rm), Operand::Register(reg)) if spec_is_32or64(reg) => {
            lemma_decodes_modrm_step(m, seq![0x09u8], Operand::Register(rm), RegValue::Register(reg));
        },
        Instruction::SetL(Operand::Register(rm)) if spec_is_8bit_reg(rm) => {
            lemma_decodes_modrm_step(m, seq![0x0Fu8, 0x9Cu8], Operand::Register(rm), RegValue::Empty);
        },
        Instruction::SetLE(Operand::Register(rm)) if spec_is_8bit_reg(rm) => {
            lemma_decodes_modrm_step(m, seq![0x0Fu8, 0x9Eu8], Operand::Register(rm), RegValue::Empty);
        },
        Instruction::SetE(Operand::Register(rm)) if spec_is_8bit_reg(rm) => {
            lemma_decodes_modrm_step(m, seq![0x0Fu8, 0x94u8], Operand::Register(rm), RegValue::Empty);
        },
        Instruction::SetG(Operand::Register(rm)) if spec_is_8bit_reg(rm) => {
            lemma_decodes_modrm_step(m, seq![0x0Fu8, 0x9Fu8], Operand::Register(rm), RegValue::Empty);
        },
        Instruction::SetGE(Operand::Register(rm)) if spec_is_8bit_reg(rm) => {
            lemma_decodes_modrm_step(m, seq![0x0Fu8, 0x9Du8], Operand::Register(rm), RegValue::Empty);
        },
        Instruction::SetNE(Operand::Register(rm)) if spec_is_8bit_reg(rm) => {
            lemma_decodes_modrm_step(m, seq![0x0Fu8, 0x95u8], Operand::Register(rm), RegValue::Empty);
        },
        Instruction::LEA(Operand::Register(reg), rm) if spec_is_32or64(reg) => {
            lemma_decodes_modrm_step(m, seq![0x8Du8], rm, RegValue::Register(reg));
        },
        Instruction::IDiv(Operand::Register(rm)) if spec_is_32or64(rm) => {
            lemma_decodes_modrm_step(m, seq![0xF7u8], Operand::Register(rm), RegValue::Extension(7));
        },
        Instruction::Xor(Operand::Register(reg), Operand::Immediate(val)) if spec_is_32or64(reg) => {
            lemma_decodes_modrm_offset(m, seq![0x81u8], Operand::Register(reg), RegValue::Extension(6), val, LabelType::Absolute);
        },
        Instruction::MovZX(Operand::Register(reg), rm) if spec_is_32or64(reg) && spec_is_memory(rm) => {
            lemma_decodes_modrm_step(m, seq![0x0Fu8, 0xB6u8], rm, RegValue::Register(reg));
        },
        _ => {},
    }
}

/// The registers named by a register-direct mod/rm byte, as (reg field, r/m field): each
/// field's three bits, with REX.R (for reg) or REX.B (for r/m) as the fourth; `None` when
/// the mod/rm byte addresses memory.
pub open spec fn decode_registers(code: Seq<u8>) -> Option<(int, int)> {
    let k: int = if code.len() > 0 && is_rex(code[0]) { 1 } else { 0 };
    let rex: u8 = if k == 1 { code[0] } else { 0x40u8 };
    if code.len() < k + 1 {
        None
    } else {
        let at: int = if code[k] == 0x0F { k + 2 } else { k + 1 };
        if at >= code.len() || code[at] >> 6u8 != 3u8 {
            None
        } else {
            let modrm = code[at];
            Some((
                ((rex >> 2u8) & 1u8) * 8 + ((modrm >> 3u8) & 7u8),
                (rex & 1u8) * 8 + (modrm & 7u8),
            ))
        }
    }
}

/// Which registers of an instruction the manual's encoding puts in the mod/rm byte:
/// the one in the reg field (none where the field extends the opcode) and the one in the
/// r/m field. `MOV r/m, r`, `CMP r/m, r`, `AND r/m, r` and `OR r/m, r` take the first
/// operand as r/m; `ADD r, r/m`, `SUB r, r/m` and `IMUL r, r/m` take it as reg.
pub open spec fn register_roles(instruction: Instruction) -> Option<(Option<Register>, Register)> {
    match instruction {
        Instruction::Mov(Operand::Register(a), Operand::Register(b)) => Some((Some(b), a)),
        Instruction::Mov(Operand::Register(a), Operand::Immediate(_)) => Some((None, a)),
        Instruction::Add(Operand::Register(a), Operand::Register(b)) => Some((Some(a), b)),
        Instruction::Sub(Operand::Register(a), Operand::Register(b)) => Some((Some(a), b)),
        Instruction::IMul(Operand::Register(a), Operand::Register(b)) => Some((Some(a), b)),
        Instruction::Cmp(Operand::Register(a), Operand::Register(b)) => Some((Some(b), a)),
        Instruction::And(Operand::Register(a), Operand::Register(b)) => Some((Some(b), a)),
        Instruction::Or(Operand::Register(a), Operand::Register(b)) => Some((Some(b), a)),
        Instruction::Add(Operand::Register(a), Operand::Immediate(_)) => Some((None, a)),
        Instruction::Sub(Operand::Register(a), Operand::Immediate(_)) => Some((None, a)),
        Instruction::Cmp(Operand::Register(a), Operand::Immediate(_)) => Some((None, a)),
        Instruction::Xor(Operand::Register(a), Operand::Immediate(_)) => Some((None, a)),
        Instruction::Pop(Operand::Register(a)) => Some((None, a)),
        Instruction::Push(Operand::Register(a)) => Some((None, a)),
        Instruction::IDiv(Operand::Register(a)) => Some((None, a)),
        Instruction::SetL(Operand::Register(a)) => Some((None, a)),
        Instruction::SetLE(Operand::Register(a)) => Some((None, a)),
        Instruction::SetG(Operand::Register(a)) => Some((None, a)),
        Instruction::SetGE(Operand::Register(a)) => Some((None, a)),
        Instruction::SetE(Operand::Register(a)) => Some((None, a)),
        Instruction::SetNE(Operand::Register(a)) => Some((None, a)),
        _ => None,
    }
}

/// The fields of a REX prefix and a register-direct mod/rm byte give back the 4-bit
/// register numbers they were built from.
proof fn lemma_register_fields(w: bool, reg_bits: u8, rm_bits: u8)
    requires
        reg_bits < 16,
        rm_bits < 16,
    ensures
        ({
            let rex_bytes = spec_rex_prefix(w, (reg_bits >> 3u8) == 1, (rm_bits >> 3u8) == 1);
            let rex: u8 = if rex_bytes.len() == 1 { rex_bytes[0] } else { 0x40u8 };
            let modrm = (0b11u8 << 6u8) | (reg_bits & 0b111u8) << 3u8 | (rm_bits & 0b111u8);
            &&& modrm >> 6u8 == 3u8
            &&& ((rex >> 2u8) & 1u8) * 8 + ((modrm >> 3u8) & 7u8) == reg_bits
            &&& (rex & 1u8) * 8 + (modrm & 7u8) == rm_bits
        }),
{
    let x = spec_to_byte(w);
    let y = spec_to_byte((reg_bits >> 3u8) == 1);
    let z = spec_to_byte((rm_bits >> 3u8) == 1);
    let f = spec_to_byte(false);
    assert(y == 1 <==> (reg_bits >> 3u8) == 1);
    assert(z == 1 <==> (rm_bits >> 3u8) == 1);
    let modrm = (0b11u8 << 6u8) | (reg_bits & 0b111u8) << 3u8 | (rm_bits & 0b111u8);
    assert(modrm >> 6u8 == 3u8 && (modrm >> 3u8) & 7u8 == reg_bits & 7u8 && modrm & 7u8 == rm_bits & 7u8) by (bit_vector)
        requires
            modrm == (0b11u8 << 6u8) | (reg_bits & 0b111u8) << 3u8 | (rm_bits & 0b111u8),
    ;
    let full = (0b0100u8 << 4u8) | x << 3u8 | y << 2u8 | f << 1u8 | z;
    assert((full >> 2u8) & 1u8 == y && full & 1u8 == z) by (bit_vector)
        requires
            full == (0b0100u8 << 4u8) | x << 3u8 | y << 2u8 | f << 1u8 | z,
            x <= 1,
            y <= 1,
            z <= 1,
            f == 0,
    ;
    assert((0x40u8 >> 2u8) & 1u8 == 0u8 && 0x40u8 & 1u8 == 0u8) by (bit_vector);
    assert(y * 8 + (reg_bits & 7u8) == reg_bits) by (bit_vector)
        requires
            reg_bits < 16,
            y == 1 <==> (reg_bits >> 3u8) == 1,
            y <= 1,
    ;
    assert(z * 8 + (rm_bits & 7u8) == rm_bits) by (bit_vector)
        requires
            rm_bits < 16,
            z == 1 <==> (rm_bits >> 3u8) == 1,
            z <= 1,
    ;
}

/// Register-direct code (and whatever follows) names its two registers in its REX prefix
/// and mod/rm byte.
proof fn lemma_decode_registers_direct(opcode: Seq<u8>, r: Register, reg: RegValue, more: Seq<u8>)
    requires
        opcode_form(opcode),
        spec_reg_value_bits(reg) < 16,
    ensures
        decode_registers(spec_rex_opcode_modrm(opcode, r, reg) + more) == Some((spec_reg_value_bits(reg) as int, spec_reg_bits(r) as int)),
{
    let reg_bits = spec_reg_value_bits(reg);
    let rm_bits = spec_reg_bits(r);
    lemma_reg_bits(r, r);
    let rex = spec_rex_prefix(spec_is_64bit_reg(r), (reg_bits >> 3u8) == 1, (rm_bits >> 3u8) == 1);
    lemma_rex_prefix(spec_is_64bit_reg(r), (reg_bits >> 3u8) == 1, (rm_bits >> 3u8) == 1);
    lemma_register_fields(spec_is_64bit_reg(r), reg_bits, rm_bits);
    let modrm = (0b11u8 << 6u8) | (reg_bits & 0b111u8) << 3u8 | (rm_bits & 0b111u8);
    let b = spec_rex_opcode_modrm(opcode, r, reg);
    assert(b == rex + opcode + seq![modrm]);
    let code = b + more;
    let k = rex.len() as int;
    assert(code[0] == b[0]);
    if k == 1 {
        assert(b[0] == rex[0]);
    } else {
        assert(b[0] == opcode[0]);
    }
    assert(code[k] == opcode[0]);
    assert(code[k + opcode.len()] == modrm);
}

/// The registers of an instruction encoded register-direct with nothing after it.
proof fn lemma_registers_step(m: AsmModel, opcode: Seq<u8>, r: Register, reg: RegValue)
    requires
        opcode_form(opcode),
        spec_reg_value_bits(reg) < 16,
    ensures
        decode_registers(spec_modrm_step(m, opcode, Operand::Register(r), reg)->0.code.skip(m.code.len() as int))
            == Some((spec_reg_value_bits(reg) as int, spec_reg_bits(r) as int)),
{
    let b = spec_rex_opcode_modrm(opcode, r, reg);
    let rc = spec_modrm_step(m, opcode, Operand::Register(r), reg)->0.code;
    assert(rc.skip(m.code.len() as int) =~= b + Seq::<u8>::empty());
    lemma_decode_registers_direct(opcode, r, reg, Seq::empty());
}

/// The registers of an instruction encoded register-direct and then an immediate.
proof fn lemma_registers_offset(m: AsmModel, opcode: Seq<u8>, r: Register, reg: RegValue, offset: ImmediateValue, label_type: LabelType)
    requires
        opcode_form(opcode),
        spec_reg_value_bits(reg) < 16,
        spec_then_offset(spec_modrm_step(m, opcode, Operand::Register(r), reg), offset, 4, label_type) is Some,
    ensures
        decode_registers(spec_then_offset(spec_modrm_step(m, opcode, Operand::Register(r), reg), offset, 4, label_type)->0.code.skip(m.code.len() as int))
            == Some((spec_reg_value_bits(reg) as int, spec_reg_bits(r) as int)),
{
    let b = spec_rex_opcode_modrm(opcode, r, reg);
    let m1 = spec_modrm_step(m, opcode, Operand::Register(r), reg)->0;
    let rc = spec_add_offset(m1, offset, 4, label_type)->0.code;
    lemma_add_offset_appends(m1, offset, 4, label_type);
    assert(m1.code == m.code + b);
    lemma_appended(m.code, b, rc);
    lemma_decode_registers_direct(opcode, r, reg, rc.skip((m.code.len() + b.len()) as int));
}

/// In the code encoded for an instruction with register operands, the REX prefix and the
/// mod/rm byte name the registers in the places the processor manual gives them (for
/// example `ADD r, r/m` has its first operand in the reg field, `CMP r/m, r` its first
/// operand in the r/m field), by the assembler's register numbers, which
/// `lemma_register_numbers` shows are the manual's.
#[verifier::spinoff_prover]
#[verifier::rlimit(80)]
pub proof fn lemma_register_operands_decode(m: AsmModel, instruction: Instruction)
    requires
        spec_assemble_instruction(m, instruction) is Some,
        register_roles(instruction) is Some,
    ensures
        ({
            let r = spec_assemble_instruction(m, instruction)->0;
            let roles = register_roles(instruction).unwrap();
            let decoded = decode_registers(r.code.skip(m.code.len() as int));
            &&& decoded is Some
            &&& decoded.unwrap().1 == spec_reg_bits(roles.1)
            &&& roles.0 matches Some(g) ==> decoded.unwrap().0 == spec_reg_bits(g)
        }),
{
    match instruction {
        Instruction::Mov(Operand::Register(a), Operand::Immediate(val)) if spec_is_32or64(a) => {
            lemma_registers_offset(m, seq![0xC7u8], a, RegValue::Empty, val, LabelType::Absolute);
        },
        Instruction::Mov(Operand::Register(a), Operand::Register(b)) => {
            lemma_reg_bits(b, b); lemma_registers_step(m, seq![0x89u8], a, RegValue::Register(b));
        },
        Instruction::Pop(Operand::Register(a)) if spec_is_64bit_reg(a) => {
            lemma_registers_step(m, seq![0x8Fu8], a, RegValue::Empty);
        },
        Instruction::Push(Operand::Register(a)) => {
            lemma_reg64_to_reg32(a); lemma_registers_step(m, seq![0xFFu8], spec_reg64_to_reg32(a), RegValue::Extension(6));
        },
        Instruction::Sub(Operand::Register(a), Operand::Immediate(val)) if spec_is_32or64(a) => {
            lemma_registers_offset(m, seq![0x81u8], a, RegValue::Extension(5), val, LabelType::Absolute);
        },
        Instruction::Add(Operand::Register(a), Operand::Immediate(val)) if spec_is_32or64(a) => {
            lemma_registers_offset(m, seq![0x81u8], a, RegValue::Extension(0), val, LabelType::Absolute);
        },
        Instruction::Cmp(Operand::Register(a), Operand::Immediate(val)) if spec_is_32or64(a) => {
            lemma_registers_offset(m, seq![0x81u8], a, RegValue::Extension(7), val, LabelType::Absolute);
        },
        Instruction::Cmp(Operand::Register(a), Operand::Register(b)) if spec_is_32or64(b) => {
            lemma_reg_bits(b, b); lemma_registers_step(m, seq![0x39u8], a, RegValue::Register(b));
        },
        Instruction::Add(Operand::Register(a), Operand::Register(b)) if spec_is_32or64(a) => {
            lemma_reg_bits(a, a); lemma_registers_step(m, seq![0x03u8], b, RegValue::Register(a));
        },
        Instruction::Sub(Operand::Register(a), Operand::Register(b)) if spec_is_32or64(a) => {
            lemma_reg_bits(a, a); lemma_registers_step(m, seq![0x2Bu8], b, RegValue::Register(a));
        },
        Instruction::IMul(Operand::Register(a), Operand::Register(b)) if spec_is_32or64(a) => {
            lemma_reg_bits(a, a); lemma_registers_step(m, seq![0x0Fu8, 0xAFu8], b, RegValue::Register(a));
        },
        Instruction::And(Operand::Register(a), Operand::Register(b)) if spec_is_32or64(b) => {
            lemma_reg_bits(b, b); lemma_registers_step(m, seq![0x21u8], a, RegValue::Register(b));
        },
        Instruction::Or(Operand::Register(a), Operand::Register(b)) if spec_is_32or64(b) => {
            lemma_reg_bits(b, b); lemma_registers_step(m, seq![0x09u8], a, RegValue::Register(b));
        },
        Instruction::IDiv(Operand::Register(a)) if spec_is_32or64(a) => {
            lemma_registers_step(m, seq![0xF7u8], a, RegValue::Extension(7));
        },
        Instruction::Xor(Operand::Register(a), Operand::Immediate(val)) if spec_is_32or64(a) => {
            lemma_registers_offset(m, seq![0x81u8], a, RegValue::Extension(6), val, LabelType::Absolute);
        },
        Instruction::SetL(Operand::Register(a)) if spec_is_8bit_reg(a) => {
            lemma_registers_step(m, seq![0x0Fu8, 0x9Cu8], a, RegValue::Empty);
        },
        Instruction::SetLE(Operand::Register(a)) if spec_is_8bit_reg(a) => {
            lemma_registers_step(m, seq![0x0Fu8, 0x9Eu8], a, RegValue::Empty);
        },
        Instruction::SetE(Operand::Register(a)) if spec_is_8bit_reg(a) => {
            lemma_registers_step(m, seq![0x0Fu8, 0x94u8], a, RegValue::Empty);
        },
        Instruction::SetG(Operand::Register(a)) if spec_is_8bit_reg(a) => {
            lemma_registers_step(m, seq![0x0Fu8, 0x9Fu8], a, RegValue::Empty);
        },
        Instruction::SetGE(Operand::Register(a)) if spec_is_8bit_reg(a) => {
            lemma_registers_step(m, seq![0x0Fu8, 0x9Du8], a, RegValue::Empty);
        },
        Instruction::SetNE(Operand::Register(a)) if spec_is_8bit_reg(a) => {
            lemma_registers_step(m, seq![0x0Fu8, 0x95u8], a, RegValue::Empty);
        },
        _ => {},
    }
}


/// The literal immediate or offset an instruction carries, if it carries one.
pub open spec fn literal_immediate(instruction: Instruction) -> Option<i64> {
    match instruction {
        Instruction::Mov(_, Operand::Immediate(ImmediateValue::Literal(v))) => Some(v),
        Instruction::Push(Operand::Immediate(ImmediateValue::Literal(v))) => Some(v),
        Instruction::Add(_, Operand::Immediate(ImmediateValue::Literal(v))) => Some(v),
        Instruction::Sub(_, Operand::Immediate(ImmediateValue::Literal(v))) => Some(v),
        Instruction::Cmp(_, Operand::Immediate(ImmediateValue::Literal(v))) => Some(v),
        Instruction::Xor(_, Operand::Immediate(ImmediateValue::Literal(v))) => Some(v),
        Instruction::Call(Operand::Immediate(ImmediateValue::Literal(v))) => Some(v),
        Instruction::Jmp(Operand::Immediate(ImmediateValue::Literal(v))) => Some(v),
        Instruction::JE(ImmediateValue::Literal(v)) => Some(v),
        Instruction::JNE(ImmediateValue::Literal(v)) => Some(v),
        _ => None,
    }
}

/// A number read as a signed 32-bit two's complement value.
pub open spec fn signed32(x: int) -> int {
    if x >= 0x8000_0000 { x - 0x1_0000_0000 } else { x }
}

/// A literal written as a 4-byte field: the field holds the literal modulo 2^32.
proof fn lemma_literal_field(m: AsmModel, v: i64, label_type: LabelType)
    ensures
        ({
            let r = spec_add_offset(m, ImmediateValue::Literal(v), 4, label_type)->0;
            let field = r.code.subrange(r.code.len() - 4, r.code.len() as int);
            &&& spec_add_offset(m, ImmediateValue::Literal(v), 4, label_type) is Some
            &&& r.code.len() == m.code.len() + 4
            &&& r.code.subrange(0, m.code.len() as int) == m.code
            &&& le_value(field) as int == v % 0x1_0000_0000
        }),
{
    let x = v as u64;
    let r = spec_add_offset(m, ImmediateValue::Literal(v), 4, label_type)->0;
    lemma_le_bytes_len(x as nat, 4);
    lemma_le_value_of_bytes(x as nat, 4);
    assert(r.code.subrange(r.code.len() - 4, r.code.len() as int) =~= crate::little_endian::le_bytes(x as nat, 4));
    assert(r.code.subrange(0, m.code.len() as int) =~= m.code);
    assert(pow256(4) == 0x1_0000_0000) by {
        reveal_with_fuel(pow256, 5);
    }
    assert(v >= 0 ==> v as u64 == v) by (bit_vector);
    assert(v < 0 ==> v as u64 == v + 0x1_0000_0000_0000_0000) by (bit_vector);
    if v < 0 {
        vstd::arithmetic::div_mod::lemma_mod_multiples_vanish(0x1_0000_0000, v as int, 0x1_0000_0000);
        assert(0x1_0000_0000 * 0x1_0000_0000 + v == x as int);
    }
}

/// Every literal an instruction carries, as an immediate or as a jump or call offset, is
/// the last four bytes of the instruction's machine code, least significant byte first:
/// they read back as the literal modulo 2^32, and so, as a signed 32-bit number, as the
/// literal itself whenever it fits in 32 bits.
#[verifier::spinoff_prover]
#[verifier::rlimit(40)]
pub proof fn lemma_immediate_encoding(m: AsmModel, instruction: Instruction)
    requires
        spec_assemble_instruction(m, instruction) is Some,
        literal_immediate(instruction) is Some,
    ensures
        ({
            let r = spec_assemble_instruction(m, instruction)->0;
            let v = literal_immediate(instruction).unwrap();
            let field = r.code.subrange(r.code.len() - 4, r.code.len() as int);
            &&& r.code.len() >= m.code.len() + 4
            &&& r.code.subrange(0, m.code.len() as int) == m.code
            &&& le_value(field) as int == v % 0x1_0000_0000
            &&& (-0x8000_0000 <= v < 0x8000_0000 ==> signed32(le_value(field) as int) == v)
        }),
{
    let r = spec_assemble_instruction(m, instruction)->0;
    let v = literal_immediate(instruction).unwrap();
    let m1 = match instruction {
        Instruction::Mov(rm, _) => spec_modrm_step(m, seq![0xC7u8], rm, RegValue::Empty)->0,
        Instruction::Sub(rm, _) => spec_modrm_step(m, seq![0x81u8], rm, RegValue::Extension(5))->0,
        Instruction::Add(rm, _) => spec_modrm_step(m, seq![0x81u8], rm, RegValue::Extension(0))->0,
        Instruction::Cmp(rm, _) => spec_modrm_step(m, seq![0x81u8], rm, RegValue::Extension(7))->0,
        Instruction::Xor(rm, _) => spec_modrm_step(m, seq![0x81u8], rm, RegValue::Extension(6))->0,
        Instruction::Push(_) => m.append_code(seq![0x68u8]),
        Instruction::Call(_) => m.append_code(seq![0xE8u8]),
        Instruction::Jmp(_) => m.append_code(seq![0xE9u8]),
        Instruction::JE(_) => m.append_code(seq![0x0Fu8, 0x84u8]),
        _ => m.append_code(seq![0x0Fu8, 0x85u8]),
    };
    let label_type = match instruction {
        Instruction::Call(_) | Instruction::Jmp(_) | Instruction::JE(_) | Instruction::JNE(_) => LabelType::Relative,
        _ => LabelType::Absolute,
    };
    assert(r == spec_add_offset(m1, ImmediateValue::Literal(v), 4, label_type)->0);
    assert(m1.code.len() >= m.code.len() && m1.code.subrange(0, m.code.len() as int) == m.code);
    lemma_literal_field(m1, v, label_type);
    assert(r.code.subrange(0, m.code.len() as int) =~= m1.code.subrange(0, m1.code.len() as int).subrange(0, m.code.len() as int));
    if -0x8000_0000 <= v < 0x8000_0000 {
        if v < 0 {
            assert((v + 0x1_0000_0000) % 0x1_0000_0000 == v + 0x1_0000_0000) by {
                vstd::arithmetic::div_mod::lemma_small_mod((v + 0x1_0000_0000) as nat, 0x1_0000_0000);
            }
            vstd::arithmetic::div_mod::lemma_mod_add_multiples_vanish(v as int, 0x1_0000_0000);
        } else {
            vstd::arithmetic::div_mod::lemma_small_mod(v as nat, 0x1_0000_0000);
        }
    }
}

} // verus!
