use poo_compiler::assembling::assembly::{is_32bit_reg, is_64bit_reg, is_8bit_reg, ImmediateValue, Instruction, Operand, Register};
use poo_compiler::assembling::{assemble, try_assemble};
use poo_compiler::compiling::CompilationResult;
use poo_compiler::linking::elf::SegmentType;
use poo_compiler::string_map::StrMap;

fn text_label(name: &str) -> Operand {
    Operand::Immediate(ImmediateValue::Label(name.to_string(), SegmentType::Text))
}

#[test]
fn try_assemble_agrees_with_assemble() {
    let code = || vec![
        Instruction::Call(text_label("f")),
        Instruction::ILabel("f".to_string()),
        Instruction::Mov(Operand::Register(Register::RAX), Operand::Immediate(ImmediateValue::Literal(0x3c))),
        Instruction::Syscall,
    ];
    let checked = try_assemble(CompilationResult { code: code(), data: StrMap::new() }).expect("assembles");
    let plain = assemble(CompilationResult { code: code(), data: StrMap::new() });
    assert_eq!(checked.code, plain.code);
    assert_eq!(checked.code, vec![0xE8, 0x00, 0x00, 0x00, 0x00, 0x48, 0xC7, 0xC0, 0x3C, 0x00, 0x00, 0x00, 0x0F, 0x05]);
}

#[test]
fn undefined_code_label_is_refused() {
    let code = vec![Instruction::Jmp(text_label("nowhere")), Instruction::Ret];
    assert!(try_assemble(CompilationResult { code, data: StrMap::new() }).is_none());
}

#[test]
fn undefined_data_label_is_refused() {
    let code = vec![Instruction::Push(Operand::Immediate(ImmediateValue::Label("msg".to_string(), SegmentType::Data)))];
    assert!(try_assemble(CompilationResult { code, data: StrMap::new() }).is_none());
}

#[test]
fn defined_data_label_is_its_position_in_the_data() {
    let mut data = StrMap::new();
    data.insert("a".to_string(), vec![1, 2, 3]);
    data.insert("b".to_string(), vec![4]);
    let code = vec![Instruction::Push(Operand::Immediate(ImmediateValue::Label("b".to_string(), SegmentType::Data)))];
    let assembled = try_assemble(CompilationResult { code, data }).expect("assembles");
    assert_eq!(assembled.code, vec![0x68, 0x03, 0x00, 0x00, 0x00]);
    assert_eq!(assembled.data, vec![1, 2, 3, 4]);
    assert_eq!(assembled.code_relocate.len(), 1);
    assert_eq!(assembled.code_relocate[0].offset, 1);
}

#[test]
fn immediate_as_destination_is_refused() {
    let code = vec![Instruction::Mov(Operand::Immediate(ImmediateValue::Literal(1)), Operand::Register(Register::RAX))];
    assert!(try_assemble(CompilationResult { code, data: StrMap::new() }).is_none());
}

#[test]
fn unsupported_operand_combination_is_refused() {
    let code = vec![Instruction::Pop(Operand::Register(Register::EAX))];
    assert!(try_assemble(CompilationResult { code, data: StrMap::new() }).is_none());
}

fn code_of(code: Vec<Instruction>) -> Vec<u8> {
    try_assemble(CompilationResult { code, data: StrMap::new() }).expect("assembles").code
}

#[test]
fn signed_division_is_encoded() {
    assert_eq!(code_of(vec![Instruction::IDiv(Operand::Register(Register::R14))]), vec![0x49, 0xF7, 0xFE]);
    assert_eq!(code_of(vec![Instruction::IDiv(Operand::Register(Register::RCX))]), vec![0x48, 0xF7, 0xF9]);
}

#[test]
fn xor_with_immediate_is_encoded() {
    let code = vec![Instruction::Xor(Operand::Register(Register::R14), Operand::Immediate(ImmediateValue::Literal(1)))];
    assert_eq!(code_of(code), vec![0x49, 0x81, 0xF6, 0x01, 0x00, 0x00, 0x00]);
}

#[test]
fn zero_extending_byte_load_is_encoded() {
    let code = vec![Instruction::MovZX(Operand::Register(Register::R15), Operand::Indirect(Register::R15))];
    assert_eq!(code_of(code), vec![0x4D, 0x0F, 0xB6, 0x3F]);
    let code = vec![Instruction::MovZX(Operand::Register(Register::RAX), Operand::Indirect(Register::RBX))];
    assert_eq!(code_of(code), vec![0x48, 0x0F, 0xB6, 0x03]);
}

#[test]
fn zero_extending_load_from_a_register_is_refused() {
    let code = vec![Instruction::MovZX(Operand::Register(Register::RAX), Operand::Register(Register::BL))];
    assert!(try_assemble(CompilationResult { code, data: StrMap::new() }).is_none());
}

#[test]
fn push_of_a_64_bit_register_has_no_rex_w() {
    assert_eq!(code_of(vec![Instruction::Push(Operand::Register(Register::R14))]), vec![0x41, 0xFF, 0xF6]);
    assert_eq!(code_of(vec![Instruction::Push(Operand::Register(Register::RAX))]), vec![0xFF, 0xF0]);
}

#[test]
fn relocation_entries_come_in_order_inside_the_code() {
    let mut data = StrMap::new();
    data.insert("a".to_string(), vec![7, 7]);
    let data_label = || Operand::Immediate(ImmediateValue::Label("a".to_string(), SegmentType::Data));
    let code = vec![
        Instruction::Push(data_label()),
        Instruction::ILabel("here".to_string()),
        Instruction::Push(Operand::Immediate(ImmediateValue::Label("here".to_string(), SegmentType::Text))),
        Instruction::Mov(Operand::Register(Register::RAX), data_label()),
    ];
    let assembled = try_assemble(CompilationResult { code, data }).expect("assembles");
    let relocs = &assembled.code_relocate;
    assert_eq!(relocs.len(), 3);
    for i in 0..relocs.len() {
        assert!(relocs[i].offset + relocs[i].bytes as usize <= assembled.code.len());
        if i + 1 < relocs.len() {
            assert!(relocs[i].offset + relocs[i].bytes as usize <= relocs[i + 1].offset);
        }
    }
}

#[test]
fn every_register_has_one_width() {
    let sixteen = [Register::AX, Register::BX, Register::CX, Register::DX, Register::SI, Register::DI, Register::SP, Register::BP, Register::R8W, Register::R15W];
    for r in sixteen.iter() {
        assert!(!is_64bit_reg(r) && !is_32bit_reg(r) && !is_8bit_reg(r));
    }
    assert!(is_64bit_reg(&Register::R9) && !is_32bit_reg(&Register::R9) && !is_8bit_reg(&Register::R9));
    assert!(is_32bit_reg(&Register::R9D) && !is_64bit_reg(&Register::R9D));
    assert!(is_8bit_reg(&Register::SIL) && !is_32bit_reg(&Register::SIL));
}
