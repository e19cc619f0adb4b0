//! The x86-64 assembly that the compiler emits and the assembler encodes.
use vstd::prelude::*;

use crate::linking::elf::SegmentType;

verus! {

#[derive(Debug, Clone, PartialEq)]
pub enum Instruction {
    /// Not an actual instruction, just used to point to a location in the code
    ILabel(Label),
    Mov(Operand, Operand),
    /// Mov with zero extend, for when moving smaller sized operand to bigger sized one
    MovZX(Operand, Operand),
    Syscall,
    Jmp(Operand),
    JE(ImmediateValue),
    JNE(ImmediateValue),
    Pop(Operand),
    Push(Operand),
    Call(Operand),
    Leave,
    Ret,
    Sub(Operand, Operand),
    Cmp(Operand, Operand),
    Add(Operand, Operand),
    /// Signed multiplication
    IMul(Operand, Operand),
    /// Signed division: EDX:EAX / operand
    IDiv(Operand),
    /// Bitwise and
    And(Operand, Operand),
    /// Bitwise or
    Or(Operand, Operand),
    /// Bitwise xor
    Xor(Operand, Operand),
    /// Bitwise not
    Not(Operand),
    /// Conditionals set bytes
    SetLE(Operand),
    SetL(Operand),
    SetGE(Operand),
    SetG(Operand),
    SetE(Operand),
    SetNE(Operand),
    /// Computes the effective address of the second operand (the source operand) and stores it in the first operand (destination operand)
    LEA(Operand, Operand),
}

#[derive(Debug, Clone, PartialEq)]
pub enum Operand {
    Immediate(ImmediateValue),
    IndirectDisplacement(Register, i32),
    Register(Register),
    Indirect(Register),
}

#[derive(Debug, Clone, PartialEq)]
pub enum ImmediateValue {
    Literal(i64),
    Label(Label, SegmentType),
}

pub type Label = String;

#[allow(non_camel_case_types)]
#[derive(Debug, Clone, Copy, PartialEq, Eq, Structural)]
pub enum Register {
    RAX, EAX,  AX,   AH,   AL,
    RBX, EBX,  BX,   BH,   BL,
    RCX, ECX,  CX,   CH,   CL,
    RDX, EDX,  DX,   DH,   DL,
    RSI, ESI,  SI,         SIL,
    RDI, EDI,  DI,         DIL,
    RSP, ESP,  SP,         SPL,
    RBP, EBP,  BP,         BPL,
    R8,  R8D,  R8W,        R8B,
    R9,  R9D,  R9W,        R9B,
    R10, R10D, R10W,       R10B,
    R11, R11D, R11W,       R11B,
    R12, R12D, R12W,       R12B,
    R13, R13D, R13W,       R13B,
    R14, R14D, R14W,       R14B,
    R15, R15D, R15W,       R15B,
}

/// An instruction as a mathematical value: labels are sequences of characters.
pub enum InstructionV {
    ILabel(Seq<char>),
    Mov(OperandV, OperandV),
    MovZX(OperandV, OperandV),
    Syscall,
    Jmp(OperandV),
    JE(ImmediateValueV),
    JNE(ImmediateValueV),
    Pop(OperandV),
    Push(OperandV),
    Call(OperandV),
    Leave,
    Ret,
    Sub(OperandV, OperandV),
    Cmp(OperandV, OperandV),
    Add(OperandV, OperandV),
    IMul(OperandV, OperandV),
    IDiv(OperandV),
    And(OperandV, OperandV),
    Or(OperandV, OperandV),
    Xor(OperandV, OperandV),
    Not(OperandV),
    SetLE(OperandV),
    SetL(OperandV),
    SetGE(OperandV),
    SetG(OperandV),
    SetE(OperandV),
    SetNE(OperandV),
    LEA(OperandV, OperandV),
}

/// An operand as a mathematical value.
pub enum OperandV {
    Immediate(ImmediateValueV),
    IndirectDisplacement(Register, i32),
    Register(Register),
    Indirect(Register),
}

/// An immediate value as a mathematical value.
pub enum ImmediateValueV {
    Literal(i64),
    Label(Seq<char>, SegmentType),
}

impl View for ImmediateValue {
    type V = ImmediateValueV;

    open spec fn view(&self) -> ImmediateValueV {
        match self {
            ImmediateValue::Literal(v) => ImmediateValueV::Literal(*v),
            ImmediateValue::Label(l, s) => ImmediateValueV::Label(l@, *s),
        }
    }
}

impl View for Operand {
    type V = OperandV;

    open spec fn view(&self) -> OperandV {
        match self {
            Operand::Immediate(i) => OperandV::Immediate(i@),
            Operand::IndirectDisplacement(r, d) => OperandV::IndirectDisplacement(*r, *d),
            Operand::Register(r) => OperandV::Register(*r),
            Operand::Indirect(r) => OperandV::Indirect(*r),
        }
    }
}

impl View for Instruction {
    type V = InstructionV;

    open spec fn view(&self) -> InstructionV {
        match self {
            Instruction::ILabel(a0) => InstructionV::ILabel(a0@),
            Instruction::Mov(a0, a1) => InstructionV::Mov(a0@, a1@),
            Instruction::MovZX(a0, a1) => InstructionV::MovZX(a0@, a1@),
            Instruction::Syscall => InstructionV::Syscall,
            Instruction::Jmp(a0) => InstructionV::Jmp(a0@),
            Instruction::JE(a0) => InstructionV::JE(a0@),
            Instruction::JNE(a0) => InstructionV::JNE(a0@),
            Instruction::Pop(a0) => InstructionV::Pop(a0@),
            Instruction::Push(a0) => InstructionV::Push(a0@),
            Instruction::Call(a0) => InstructionV::Call(a0@),
            Instruction::Leave => InstructionV::Leave,
            Instruction::Ret => InstructionV::Ret,
            Instruction::Sub(a0, a1) => InstructionV::Sub(a0@, a1@),
            Instruction::Cmp(a0, a1) => InstructionV::Cmp(a0@, a1@),
            Instruction::Add(a0, a1) => InstructionV::Add(a0@, a1@),
            Instruction::IMul(a0, a1) => InstructionV::IMul(a0@, a1@),
            Instruction::IDiv(a0) => InstructionV::IDiv(a0@),
            Instruction::And(a0, a1) => InstructionV::And(a0@, a1@),
            Instruction::Or(a0, a1) => InstructionV::Or(a0@, a1@),
            Instruction::Xor(a0, a1) => InstructionV::Xor(a0@, a1@),
            Instruction::Not(a0) => InstructionV::Not(a0@),
            Instruction::SetLE(a0) => InstructionV::SetLE(a0@),
            Instruction::SetL(a0) => InstructionV::SetL(a0@),
            Instruction::SetGE(a0) => InstructionV::SetGE(a0@),
            Instruction::SetG(a0) => InstructionV::SetG(a0@),
            Instruction::SetE(a0) => InstructionV::SetE(a0@),
            Instruction::SetNE(a0) => InstructionV::SetNE(a0@),
            Instruction::LEA(a0, a1) => InstructionV::LEA(a0@, a1@),
        }
    }
}

/// The instructions of a sequence as mathematical values.
pub open spec fn instructions_view(code: Seq<Instruction>) -> Seq<InstructionV> {
    code.map_values(|i: Instruction| i@)
}

pub open spec fn spec_is_64bit_reg(reg: Register) -> bool {
    matches!(reg,
        Register::RAX | Register::RBX | Register::RCX | Register::RDX | Register::RSI | Register::RDI
        | Register::RSP | Register::RBP | Register::R8 | Register::R9 | Register::R10 | Register::R11
        | Register::R12 | Register::R13 | Register::R14 | Register::R15)
}

pub open spec fn spec_is_32bit_reg(reg: Register) -> bool {
    matches!(reg,
        Register::EAX | Register::EBX | Register::ECX | Register::EDX | Register::ESI | Register::EDI
        | Register::ESP | Register::EBP | Register::R8D | Register::R9D | Register::R10D
        | Register::R11D | Register::R12D | Register::R13D | Register::R14D | Register::R15D)
}

pub open spec fn spec_is_8bit_reg(reg: Register) -> bool {
    matches!(reg,
        Register::AH | Register::AL | Register::BH | Register::BL | Register::CH | Register::CL
        | Register::DH | Register::DL | Register::SIL | Register::DIL | Register::SPL | Register::BPL
        | Register::R8B | Register::R9B | Register::R10B | Register::R11B | Register::R12B
        | Register::R13B | Register::R14B | Register::R15B)
}

/// Check if reg is a 64 bit register
pub fn is_64bit_reg(reg: &Register) -> (r: bool)
    ensures
        r == spec_is_64bit_reg(*reg),
{
    match reg {
        Register::RAX | Register::RBX | Register::RCX | Register::RDX | Register::RSI | Register::RDI
        | Register::RSP | Register::RBP | Register::R8 | Register::R9 | Register::R10 | Register::R11
        | Register::R12 | Register::R13 | Register::R14 | Register::R15 => true,
        _ => false,
    }
}

/// Check if reg is a 32 or 64 bit register
pub fn is_32or64_bit_reg(reg: &Register) -> (r: bool)
    ensures
        r == (spec_is_32bit_reg(*reg) || spec_is_64bit_reg(*reg)),
{
    is_32bit_reg(reg) || is_64bit_reg(reg)
}

/// Check if reg is a 32 bit register
pub fn is_32bit_reg(reg: &Register) -> (r: bool)
    ensures
        r == spec_is_32bit_reg(*reg),
{
    match reg {
        Register::EAX | Register::EBX | Register::ECX | Register::EDX | Register::ESI | Register::EDI
        | Register::ESP | Register::EBP | Register::R8D | Register::R9D | Register::R10D
        | Register::R11D | Register::R12D | Register::R13D | Register::R14D | Register::R15D => true,
        _ => false,
    }
}

/// Check if reg is a 8 bit register
pub fn is_8bit_reg(reg: &Register) -> (r: bool)
    ensures
        r == spec_is_8bit_reg(*reg),
{
    match reg {
        Register::AH | Register::AL | Register::BH | Register::BL | Register::CH | Register::CL
        | Register::DH | Register::DL | Register::SIL | Register::DIL | Register::SPL | Register::BPL
        | Register::R8B | Register::R9B | Register::R10B | Register::R11B | Register::R12B
        | Register::R13B | Register::R14B | Register::R15B => true,
        _ => false,
    }
}

/// The 16 bit registers.
pub open spec fn spec_is_16bit_reg(reg: Register) -> bool {
    matches!(reg,
        Register::AX | Register::BX | Register::CX | Register::DX | Register::SI | Register::DI
        | Register::SP | Register::BP | Register::R8W | Register::R9W | Register::R10W
        | Register::R11W | Register::R12W | Register::R13W | Register::R14W | Register::R15W)
}

/// No register has two of the widths 8, 32 and 64 bits, and the registers with none of
/// them are exactly the 16 bit ones.
pub proof fn lemma_register_widths_disjoint(reg: Register)
    ensures
        !(spec_is_64bit_reg(reg) && spec_is_32bit_reg(reg)),
        !(spec_is_64bit_reg(reg) && spec_is_8bit_reg(reg)),
        !(spec_is_32bit_reg(reg) && spec_is_8bit_reg(reg)),
        !(spec_is_64bit_reg(reg) || spec_is_32bit_reg(reg) || spec_is_8bit_reg(reg)) <==> spec_is_16bit_reg(reg),
{
}

} // verus!
