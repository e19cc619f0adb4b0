use poo_compiler::abstract_syntax_tree::{copy_type, ExprType, Function, Literal, Operator, Program, Statement, Type, TypedExpression, Variable};
use poo_compiler::assembling::assembly::{ImmediateValue, Instruction, Operand, Register};
use poo_compiler::assembling::assemble;
use poo_compiler::compiling::{compile, try_compile, CompilationResult};
use poo_compiler::linking::elf::{create_elf, SegmentType};
use poo_compiler::linking::relocate::RelocationEntrie;
use poo_compiler::parsing::parse;
use poo_compiler::string_map::StrMap;
use poo_compiler::type_checker::type_check;

fn compiled(source: &str) -> CompilationResult {
    let parsed = parse(source).expect("program should parse");
    let typed = type_check(parsed).expect("program should check");
    try_compile(typed).expect("program should compile")
}

fn label(instruction: &Instruction) -> Option<String> {
    match instruction {
        Instruction::ILabel(l) => Some(l.clone()),
        _ => None,
    }
}

#[test]
fn program_starts_by_calling_main_and_exiting_with_its_result() {
    let result = compiled("Int main() { return 7; }");
    assert_eq!(result.code[0], Instruction::Call(Operand::Immediate(ImmediateValue::Label("main".to_string(), SegmentType::Text))));
    assert_eq!(result.code[1], Instruction::Mov(Operand::Register(Register::RDI), Operand::Register(Register::RAX)));
    assert_eq!(result.code[2], Instruction::Mov(Operand::Register(Register::RAX), Operand::Immediate(ImmediateValue::Literal(0x3c))));
    assert_eq!(result.code[3], Instruction::Syscall);
    assert!(result.code.iter().any(|i| label(i) == Some("main".to_string())));
    assert!(result.code.iter().any(|i| label(i) == Some("return+main".to_string())));
    assert!(result.code.contains(&Instruction::Push(Operand::Immediate(ImmediateValue::Literal(7)))));
    assert_eq!(result.data.entries.len(), 0);
}

#[test]
fn global_variables_and_strings_go_to_the_data() {
    let result = compiled("Int counter; Int main() { syscall!(1, 1, \"hi\", 2); return counter; }");
    let labels: Vec<&String> = result.data.entries.iter().map(|(k, _)| k).collect();
    assert!(labels.contains(&&"globalvar:counter".to_string()));
    let string = result.data.entries.iter().find(|(k, _)| k == "string_literal:hi").expect("string in the data");
    assert_eq!(string.1, vec![b'h', b'i', 0]);
    let global = result.data.entries.iter().find(|(k, _)| k == "globalvar:counter").expect("global in the data");
    assert_eq!(global.1.len(), 8);
}

fn random_suffix_of(labels: &[String], prefix: &str) -> String {
    let l = labels.iter().find(|l| l.starts_with(prefix)).expect("label should exist");
    l[prefix.len()..].to_string()
}

#[test]
fn branch_labels_carry_random_suffixes() {
    let source = "Int main() { if (True) { return 1; } else { return 2; } }";
    let first: Vec<String> = compiled(source).code.iter().filter_map(label).collect();
    let second: Vec<String> = compiled(source).code.iter().filter_map(label).collect();
    let suffix1 = random_suffix_of(&first, "begin_else+");
    let suffix2 = random_suffix_of(&second, "begin_else+");
    assert_eq!(suffix1.len(), 20);
    assert!(suffix1.chars().all(|c| c.is_ascii_alphanumeric()));
    assert_ne!(suffix1, suffix2);
    assert_eq!(random_suffix_of(&first, "end_else+").len(), 20);
}

#[test]
fn while_loops_have_body_and_condition_labels() {
    let labels: Vec<String> = compiled("Int main() { while (False) { } return 0; }").code.iter().filter_map(label).collect();
    assert_eq!(random_suffix_of(&labels, "while_body+").len(), 20);
    assert_eq!(random_suffix_of(&labels, "while_condition+").len(), 20);
}

#[test]
fn assembling_test_hello_world() {
    let hello: Vec<u8> = "Hello world\n".as_bytes().to_vec();
    let hello_len: i64 = hello.len().try_into().expect("Failed to convert usize to u64");
    let hello_label = "hello_string".to_string();
    let code: Vec<Instruction> = vec![
        // sys_write system call
        Instruction::Mov(Operand::Register(Register::EAX), Operand::Immediate(ImmediateValue::Literal(0x1))),
        // file descriptor = stdout
        Instruction::Mov(Operand::Register(Register::EDI), Operand::Immediate(ImmediateValue::Literal(0x1))),
        // char* = pointer to string
        Instruction::Mov(
            Operand::Register(Register::RSI),
            Operand::Immediate(ImmediateValue::Label(hello_label.clone(), SegmentType::Data)),
        ),
        // mov edx, length of string
        Instruction::Mov(Operand::Register(Register::EDX), Operand::Immediate(ImmediateValue::Literal(hello_len))),
        Instruction::Syscall,
        // sys_exit system call
        Instruction::Mov(Operand::Register(Register::EAX), Operand::Immediate(ImmediateValue::Literal(0x3c))),
        // exit code: 0x0
        Instruction::Mov(Operand::Register(Register::EDI), Operand::Immediate(ImmediateValue::Literal(0))),
        Instruction::Syscall,
    ];
    let mut data = StrMap::new();
    data.insert(hello_label, hello.clone());
    let assembled = assemble(CompilationResult { code, data });
    assert_eq!(
        assembled.code,
        vec![
            0xC7, 0xC0, 0x01, 0x00, 0x00, 0x00, // mov eax, 1
            0xC7, 0xC7, 0x01, 0x00, 0x00, 0x00, // mov edi, 1
            0x48, 0xC7, 0xC6, 0x00, 0x00, 0x00, 0x00, // mov rsi, hello
            0xC7, 0xC2, 0x0C, 0x00, 0x00, 0x00, // mov edx, 12
            0x0F, 0x05, // syscall
            0xC7, 0xC0, 0x3C, 0x00, 0x00, 0x00, // mov eax, 60
            0xC7, 0xC7, 0x00, 0x00, 0x00, 0x00, // mov edi, 0
            0x0F, 0x05, // syscall
        ]
    );
    assert_eq!(assembled.data, hello);
    assert_eq!(assembled.code_relocate.len(), 1);
    assert_eq!(assembled.code_relocate[0], RelocationEntrie { offset: 15, bytes: 4, segment: SegmentType::Data });
    let binary = create_elf(assembled);
    let data_address = 0x4000b0u64 + 41 + 0x1000;
    assert_eq!(&binary[176 + 15..176 + 19], &(data_address as u32).to_le_bytes()[..]);
    assert_eq!(&binary[176 + 41..], "Hello world\n".as_bytes());
}

#[test]
fn code_labels_are_filled_in_relative_to_the_next_instruction() {
    let code = vec![
        Instruction::Jmp(Operand::Immediate(ImmediateValue::Label("end".to_string(), SegmentType::Text))),
        Instruction::Syscall,
        Instruction::ILabel("end".to_string()),
        Instruction::Ret,
    ];
    let assembled = assemble(CompilationResult { code, data: StrMap::new() });
    // jmp rel32 over the two bytes of the syscall
    assert_eq!(assembled.code, vec![0xE9, 0x02, 0x00, 0x00, 0x00, 0x0F, 0x05, 0xC3]);
    assert!(assembled.code_relocate.is_empty());
}

#[test]
fn whole_pipeline_gives_an_executable() {
    let source = "Int main() { syscall!(1, 1, \"Hello world!\\n\", 13); return 0; }";
    let result = compiled(source);
    let assembled = assemble(result);
    let code_len = assembled.code.len();
    let data_len = assembled.data.len();
    assert_eq!(data_len, 14);
    let binary = create_elf(assembled);
    assert_eq!(&binary[0..4], &[0x7f, b'E', b'L', b'F']);
    assert_eq!(binary.len(), 176 + code_len + data_len);
    assert_eq!(&binary[176 + code_len..], "Hello world!\n\0".as_bytes());
}

fn stack_effect(instruction: &Instruction) -> i64 {
    match instruction {
        Instruction::Push(_) => 1,
        Instruction::Pop(_) => -1,
        Instruction::Add(Operand::Register(Register::RSP), Operand::Immediate(ImmediateValue::Literal(k))) => -(k / 8),
        Instruction::Sub(Operand::Register(Register::RSP), Operand::Immediate(ImmediateValue::Literal(k))) => k / 8,
        Instruction::Leave => -1,
        _ => 0,
    }
}

#[test]
fn compiled_function_leaves_the_stack_as_it_found_it() {
    let result = compiled(
        "Int x; Int twice(Int a) { return a + a; } Int main() { x = twice(3) * 2; if (x == 12) { x = 0; } else { x = 5; } while (x < 3) { x = x + 1; } return x; }",
    );
    let start = result.code.iter().position(|i| label(i) == Some("twice".to_string())).expect("function label");
    let main_start = result.code.iter().position(|i| label(i) == Some("main".to_string())).expect("function label");
    let (first, second) = if start < main_start { (start, main_start) } else { (main_start, start) };
    let delta_first: i64 = result.code[first..second].iter().map(stack_effect).sum();
    let delta_second: i64 = result.code[second..].iter().map(stack_effect).sum();
    assert_eq!(delta_first, 0);
    assert_eq!(delta_second, 0);
}

#[test]
fn compile_and_try_compile_give_the_same_shape() {
    let source = "Int g; Int main() { g = 4; while (g < 9) { g = g + 1; } return g; }";
    let typed = || type_check(parse(source).unwrap()).unwrap();
    let plain = compile(typed());
    let checked = try_compile(typed()).expect("program should compile");
    assert_eq!(plain.code.len(), checked.code.len());
    assert_eq!(plain.data.entries, checked.data.entries);
}

#[test]
fn local_declaration_is_not_compiled() {
    let typed = type_check(parse("Int main() { Int x; return 0; }").unwrap()).unwrap();
    assert!(try_compile(typed).is_none());
}

#[test]
fn division_and_remainder_assemble() {
    let result = compiled("Int main() { return 45 / 4 + 45 % 4; }");
    assert!(result.code.contains(&Instruction::IDiv(Operand::Register(Register::R14))));
    assert!(poo_compiler::assembling::try_assemble(result).is_some());
}

#[test]
fn function_frame_and_argument_offsets() {
    let result = compiled("Int f(Int a, Int b) { return a - b; } Int main() { return f(5, 2); }");
    let start = result.code.iter().position(|i| label(i) == Some("f".to_string())).expect("function label");
    assert_eq!(result.code[start + 1], Instruction::Push(Operand::Register(Register::RBP)));
    assert_eq!(result.code[start + 2], Instruction::Mov(Operand::Register(Register::RBP), Operand::Register(Register::RSP)));
    // the first argument is pushed first, so it lies further from the frame pointer
    assert_eq!(result.code[start + 3], Instruction::Push(Operand::IndirectDisplacement(Register::RBP, 24)));
    assert_eq!(result.code[start + 4], Instruction::Push(Operand::IndirectDisplacement(Register::RBP, 16)));
    let ret = result.code.iter().position(|i| label(i) == Some("return+f".to_string())).expect("return label");
    assert_eq!(result.code[ret + 1], Instruction::Leave);
    assert_eq!(result.code[ret + 2], Instruction::Ret);
}

#[test]
fn function_labels_come_in_program_order_and_globals_are_zero() {
    let result = compiled("Int g; Int h; Int first() { return g; } Int main() { return first(); }");
    let first = result.code.iter().position(|i| label(i) == Some("first".to_string())).unwrap();
    let main = result.code.iter().position(|i| label(i) == Some("main".to_string())).unwrap();
    assert!(4 <= first && first < main);
    for (k, v) in result.data.entries.iter() {
        if k.starts_with("globalvar:") {
            assert_eq!(v, &vec![0u8; 8]);
        }
    }
    assert!(result.data.entries.iter().any(|(k, _)| k == "globalvar:g"));
    assert!(result.data.entries.iter().any(|(k, _)| k == "globalvar:h"));
}

#[test]
fn array_subscript_scales_the_index_and_adds_the_base() {
    use_subscript(Type::Int, 8);
}

fn use_subscript(element: Type, size: i64) {
    let pointer = Type::Pointer(Box::new(copy_type(&element)));
    let subscript = ExprType(
        TypedExpression::BinaryOp(
            Operator::ArraySubScript,
            Box::new(ExprType(TypedExpression::Var("p".to_string()), copy_type(&pointer))),
            Box::new(ExprType(TypedExpression::Literal(Literal::Int(2)), Type::Int)),
        ),
        copy_type(&element),
    );
    let program = Program {
        functions: vec![Function {
            return_type: element,
            arguments: vec![],
            indentifier: "main".to_string(),
            body: vec![Statement::Return(subscript)],
        }],
        variables: vec![Variable { type_: pointer, identifier: "p".to_string() }],
    };
    let result = try_compile(program).expect("program should compile");
    let pops = result
        .code
        .windows(2)
        .position(|w| w[0] == Instruction::Pop(Operand::Register(Register::R15)) && w[1] == Instruction::Pop(Operand::Register(Register::R14)))
        .expect("index popped into R15, then base into R14");
    // the index was pushed last
    assert_eq!(result.code[pops - 1], Instruction::Push(Operand::Immediate(ImmediateValue::Literal(2))));
    let mut k = pops + 2;
    if size != 1 {
        assert_eq!(result.code[k], Instruction::Mov(Operand::Register(Register::R13), Operand::Immediate(ImmediateValue::Literal(size))));
        assert_eq!(result.code[k + 1], Instruction::IMul(Operand::Register(Register::R15), Operand::Register(Register::R13)));
        k += 2;
    }
    assert_eq!(result.code[k], Instruction::Add(Operand::Register(Register::R15), Operand::Register(Register::R14)));
}

#[test]
fn char_subscript_is_not_scaled() {
    use_subscript(Type::Char, 1);
}
