//! Compilation of expressions to stack machine style assembly: every expression
//! leaves its result on the stack.
use vstd::prelude::*;

use crate::abstract_syntax_tree::{ExprType, Literal, Operator, Type, TypedExpression, UnaryOperator};
use crate::assembling::assembly::{
    instructions_view, ImmediateValue, ImmediateValueV, Instruction, InstructionV, Operand, OperandV,
    Register,
};
use crate::compiling::{format_variable_label, CompilationResult, Environment};
use crate::linking::elf::SegmentType;
use crate::string_map::{entries_view, lemma_has_key_view, lemma_insert, lemma_insert_view, lookup, vhas_key, vinsert, StrMap};

verus! {

/// The data section as mathematical values: labels and their bytes.
pub type DataView = Seq<(Seq<char>, Seq<u8>)>;

/// Whether the expression should result in a address or value
/// example with assignment: a = b
/// a should return an adress
/// b should return an value
#[derive(Debug, Clone, Copy, PartialEq, Eq, Structural)]
pub enum ExpressionResult {
    Value,
    Adress,
}

pub open spec fn reg(r: Register) -> OperandV {
    OperandV::Register(r)
}

pub open spec fn lit(v: i64) -> OperandV {
    OperandV::Immediate(ImmediateValueV::Literal(v))
}

pub open spec fn label_operand(label: Seq<char>, segment: SegmentType) -> OperandV {
    OperandV::Immediate(ImmediateValueV::Label(label, segment))
}

/// What compiling something appended to the code and made of the data, as `r` says.
pub open spec fn spec_emitted(before: CompilationResult, after: CompilationResult, r: (Seq<InstructionV>, DataView)) -> bool {
    &&& after.data.wf()
    &&& instructions_view(after.code@) == instructions_view(before.code@) + r.0
    &&& entries_view(after.data.entries@) == r.1
}

/// Size of a value of the type in bytes on the heap
pub open spec fn spec_type_size_heap(type_: Type) -> u32 {
    match type_ {
        Type::Bool => 1,
        Type::Int => 8,
        Type::Void => 0,
        Type::Char => 1,
        Type::Pointer(_) => 8,
    }
}

/// Code and data of a literal: its value is pushed; a string is stored, null
/// terminated, in the data under a label made from its contents, and the label is pushed.
pub open spec fn spec_compile_literal(literal: Literal, data: DataView) -> (Seq<InstructionV>, DataView) {
    match literal {
        Literal::Bool(b) => (seq![InstructionV::Push(lit(if b { 1 } else { 0 }))], data),
        Literal::Int(i) => (seq![InstructionV::Push(lit(i))], data),
        Literal::String(s) => {
            let label = "string_literal:"@ + s@;
            (
                seq![InstructionV::Push(label_operand(label, SegmentType::Data))],
                vinsert(data, label, vstd::utf8::encode_utf8(s@).push(0u8)),
            )
        },
    }
}

/// A local variable lives at an offset from RBP.
pub open spec fn spec_compile_local_variable(offset: i32, result: ExpressionResult) -> Seq<InstructionV> {
    match result {
        ExpressionResult::Value => seq![InstructionV::Push(OperandV::IndirectDisplacement(Register::RBP, offset))],
        ExpressionResult::Adress => seq![
            InstructionV::LEA(reg(Register::R14), OperandV::IndirectDisplacement(Register::RBP, offset)),
            InstructionV::Push(reg(Register::R14)),
        ],
    }
}

/// A global variable lives at its label in the data.
pub open spec fn spec_compile_global_variable(label: Seq<char>, result: ExpressionResult) -> Seq<InstructionV> {
    match result {
        ExpressionResult::Value => seq![
            InstructionV::Mov(reg(Register::R15), label_operand(label, SegmentType::Data)),
            InstructionV::Push(OperandV::Indirect(Register::R15)),
        ],
        ExpressionResult::Adress => seq![InstructionV::Push(label_operand(label, SegmentType::Data))],
    }
}

/// A variable is local when the environment knows it, else global when its label is
/// in the data; `None` for a variable that is neither.
pub open spec fn spec_compile_variable(identifier: Seq<char>, env: Seq<(String, i32)>, data: DataView, result: ExpressionResult) -> Option<Seq<InstructionV>> {
    match lookup(env, identifier) {
        Some(offset) => Some(spec_compile_local_variable(offset, result)),
        None => {
            let label = "globalvar:"@ + identifier;
            if vhas_key(data, label) {
                Some(spec_compile_global_variable(label, result))
            } else {
                None
            }
        },
    }
}

/// The instructions that combine R14 and R15 into R14 for an arithmetic, logic or comparison operator.
pub open spec fn spec_operator_instructions(operator: Operator) -> Seq<InstructionV> {
    match operator {
        Operator::Addition => seq![InstructionV::Add(reg(Register::R14), reg(Register::R15))],
        Operator::Subtraction => seq![InstructionV::Sub(reg(Register::R14), reg(Register::R15))],
        Operator::Multiplication => seq![InstructionV::IMul(reg(Register::R14), reg(Register::R15))],
        Operator::And => seq![InstructionV::And(reg(Register::R14), reg(Register::R15))],
        Operator::Or => seq![InstructionV::Or(reg(Register::R14), reg(Register::R15))],
        Operator::LessEq => spec_comparison(InstructionV::SetLE(reg(Register::R14B))),
        Operator::Less => spec_comparison(InstructionV::SetL(reg(Register::R14B))),
        Operator::GreaterEquals => spec_comparison(InstructionV::SetGE(reg(Register::R14B))),
        Operator::Greater => spec_comparison(InstructionV::SetG(reg(Register::R14B))),
        Operator::Equals => spec_comparison(InstructionV::SetE(reg(Register::R14B))),
        Operator::NotEqual => spec_comparison(InstructionV::SetNE(reg(Register::R14B))),
        _ => Seq::empty(),
    }
}

/// Compare R14 with R15 and set R14 to 0 or 1 with the given set instruction.
pub open spec fn spec_comparison(set: InstructionV) -> Seq<InstructionV> {
    seq![
        InstructionV::Cmp(reg(Register::R14), reg(Register::R15)),
        InstructionV::Mov(reg(Register::R14), lit(0)),
        set,
    ]
}

/// The register that holds the i-th value of a system call: the call number, then up to six arguments.
pub open spec fn spec_syscall_register(i: int) -> Register {
    if i == 0 {
        Register::RAX
    } else if i == 1 {
        Register::RDI
    } else if i == 2 {
        Register::RSI
    } else if i == 3 {
        Register::RDX
    } else if i == 4 {
        Register::R10
    } else if i == 5 {
        Register::R8
    } else {
        Register::R9
    }
}

/// Pops the `len` pushed values of a system call into their registers, last value first.
pub open spec fn spec_syscall_pops(len: nat) -> Seq<InstructionV> {
    Seq::new(len, |i: int| InstructionV::Pop(reg(spec_syscall_register(len - 1 - i))))
}

/// Code and data of an expression that leaves its value (or address) on the stack;
/// `None` where compiling panics.
#[verifier::opaque]
pub open spec fn spec_compile_expression(e: ExprType, env: Seq<(String, i32)>, data: DataView, result: ExpressionResult) -> Option<(Seq<InstructionV>, DataView)>
    decreases e, 2int, 0int,
{
    match e.0 {
        TypedExpression::Literal(l) => Some(spec_compile_literal(l, data)),
        TypedExpression::Var(v) => match spec_compile_variable(v@, env, data, result) {
            Some(code) => Some((code, data)),
            None => None,
        },
        TypedExpression::BinaryOp(_, _, _) => spec_compile_binary_operator(e, env, data, result),
        TypedExpression::FunctionCall(_, _) => spec_compile_function_call(e, env, data),
        TypedExpression::BuiltInFunctionCall(name, _) => if name@ == "syscall"@ {
            spec_compile_syscall(e, env, data)
        } else {
            None
        },
        TypedExpression::UnaryOp(_, _) => spec_compile_unary_operator(e, env, data, result),
        TypedExpression::Cast(_, operand) => spec_compile_expression(*operand, env, data, result),
    }
}

/// Code and data of the arguments of a call from the `i`-th on, each leaving its value on the stack.
pub open spec fn spec_compile_arguments(e: ExprType, i: int, env: Seq<(String, i32)>, data: DataView) -> Option<(Seq<InstructionV>, DataView)>
    decreases e, 0int, spec_arguments(e).len() - i,
{
    let args = spec_arguments(e);
    if i < 0 || i >= args.len() {
        Some((Seq::empty(), data))
    } else {
        match spec_compile_expression(args[i], env, data, ExpressionResult::Value) {
            Some((c1, d1)) => match spec_compile_arguments(e, i + 1, env, d1) {
                Some((c2, d2)) => Some((c1 + c2, d2)),
                None => None,
            },
            None => None,
        }
    }
}

/// The arguments of a call.
pub open spec fn spec_arguments(e: ExprType) -> Seq<ExprType> {
    match e.0 {
        TypedExpression::FunctionCall(_, args) => args@,
        TypedExpression::BuiltInFunctionCall(_, args) => args@,
        _ => Seq::empty(),
    }
}

/// A call pushes its arguments, calls the function, frees the arguments and pushes the result.
/// A call with more arguments than the byte size of their stack space can count is not compiled.
pub open spec fn spec_compile_function_call(e: ExprType, env: Seq<(String, i32)>, data: DataView) -> Option<(Seq<InstructionV>, DataView)>
    decreases e, 1int, 0int,
{
    match e.0 {
        TypedExpression::FunctionCall(identifier, args) => {
            if args.len() * 8 > usize::MAX || args.len() * 8 > i64::MAX {
                None
            } else {
                match spec_compile_arguments(e, 0, env, data) {
                    Some((c, d)) => Some((
                        c + seq![
                            InstructionV::Call(label_operand(identifier@, SegmentType::Text)),
                            InstructionV::Add(reg(Register::RSP), lit((args.len() * 8) as i64)),
                            InstructionV::Push(reg(Register::RAX)),
                        ],
                        d,
                    )),
                    None => None,
                }
            }
        },
        _ => None,
    }
}

/// A system call pushes its number and arguments, pops them into their registers, and
/// pushes the result; `None` without a number or with more than six arguments.
pub open spec fn spec_compile_syscall(e: ExprType, env: Seq<(String, i32)>, data: DataView) -> Option<(Seq<InstructionV>, DataView)>
    decreases e, 1int, 0int,
{
    let len = spec_arguments(e).len();
    if len < 1 || len > 7 {
        None
    } else {
        match spec_compile_arguments(e, 0, env, data) {
            Some((c, d)) => Some((
                c + spec_syscall_pops(len) + seq![InstructionV::Syscall, InstructionV::Push(reg(Register::RAX))],
                d,
            )),
            None => None,
        }
    }
}

/// Code and data of a binary operator expression.
pub open spec fn spec_compile_binary_operator(e: ExprType, env: Seq<(String, i32)>, data: DataView, result: ExpressionResult) -> Option<(Seq<InstructionV>, DataView)>
    decreases e, 1int, 0int,
{
    match e.0 {
        TypedExpression::BinaryOp(operator, operand1, operand2) => {
            let r1 = match operator {
                Operator::Assignment => ExpressionResult::Adress,
                Operator::ArraySubScript => ExpressionResult::Value,
                _ => result,
            };
            let r2 = match operator {
                Operator::ArraySubScript => ExpressionResult::Value,
                _ => result,
            };
            match spec_compile_expression(*operand1, env, data, r1) {
                Some((c1, d1)) => match spec_compile_expression(*operand2, env, d1, r2) {
                    Some((c2, d2)) => match spec_binary_operator_tail(operator, operand1.1, e.1, result) {
                        Some(tail) => Some((c1 + c2 + tail, d2)),
                        None => None,
                    },
                    None => None,
                },
                None => None,
            }
        },
        _ => None,
    }
}

/// What follows the code of the two operands of a binary operator; `None` where compiling panics.
pub open spec fn spec_binary_operator_tail(operator: Operator, operand1_type: Type, type_: Type, result: ExpressionResult) -> Option<Seq<InstructionV>> {
    match operator {
        Operator::Assignment => {
            let size = spec_type_size_heap(operand1_type);
            if size == 8 {
                Some(spec_assignment_tail(reg(Register::R15)))
            } else if size == 1 {
                Some(spec_assignment_tail(reg(Register::R15B)))
            } else {
                None
            }
        },
        Operator::Division => Some(spec_division_tail(Register::RAX)),
        Operator::Modulo => Some(spec_division_tail(Register::RDX)),
        Operator::ArraySubScript => spec_array_subscript_tail(type_, result),
        _ => Some(
            seq![InstructionV::Pop(reg(Register::R15)), InstructionV::Pop(reg(Register::R14))]
                + spec_operator_instructions(operator) + seq![InstructionV::Push(reg(Register::R14))],
        ),
    }
}

/// Store the value at the address, and push the value again.
pub open spec fn spec_assignment_tail(source: OperandV) -> Seq<InstructionV> {
    seq![
        InstructionV::Pop(reg(Register::R15)),
        InstructionV::Pop(reg(Register::R14)),
        InstructionV::Mov(OperandV::Indirect(Register::R14), source),
        InstructionV::Push(reg(Register::R15)),
    ]
}

/// Divide, and push the quotient (RAX) or the remainder (RDX).
pub open spec fn spec_division_tail(result_register: Register) -> Seq<InstructionV> {
    seq![
        InstructionV::Pop(reg(Register::R14)),
        InstructionV::Pop(reg(Register::RAX)),
        InstructionV::Mov(reg(Register::RDX), lit(0)),
        InstructionV::IDiv(reg(Register::R14)),
        InstructionV::Push(reg(result_register)),
    ]
}

/// Pop the index (computed last, so on top) into R15 and the base address into R14, scale
/// the index by the element size, add the base, and push the element or its address.
pub open spec fn spec_array_subscript_tail(type_: Type, result: ExpressionResult) -> Option<Seq<InstructionV>> {
    let size = spec_type_size_heap(type_);
    let scale = if size != 1 {
        seq![InstructionV::Mov(reg(Register::R13), lit(size as i64)), InstructionV::IMul(reg(Register::R15), reg(Register::R13))]
    } else {
        Seq::empty()
    };
    let head = seq![InstructionV::Pop(reg(Register::R15)), InstructionV::Pop(reg(Register::R14))] + scale
        + seq![InstructionV::Add(reg(Register::R15), reg(Register::R14))];
    match result {
        ExpressionResult::Value => if size == 8 {
            Some(head + seq![InstructionV::Push(OperandV::Indirect(Register::R15))])
        } else if size == 1 {
            Some(head + seq![
                InstructionV::MovZX(reg(Register::R15), OperandV::Indirect(Register::R15)),
                InstructionV::Push(reg(Register::R15)),
            ])
        } else {
            None
        },
        ExpressionResult::Adress => Some(head + seq![InstructionV::Push(reg(Register::R15))]),
    }
}

/// Code and data of a unary operator expression.
pub open spec fn spec_compile_unary_operator(e: ExprType, env: Seq<(String, i32)>, data: DataView, result: ExpressionResult) -> Option<(Seq<InstructionV>, DataView)>
    decreases e, 1int, 0int,
{
    match e.0 {
        TypedExpression::UnaryOp(operator, operand) => match operator {
            UnaryOperator::Dereference => match result {
                ExpressionResult::Value => match spec_compile_expression(*operand, env, data, ExpressionResult::Value) {
                    Some((c, d)) => Some((
                        c + seq![InstructionV::Pop(reg(Register::R14)), InstructionV::Push(OperandV::Indirect(Register::R14))],
                        d,
                    )),
                    None => None,
                },
                ExpressionResult::Adress => spec_compile_expression(*operand, env, data, ExpressionResult::Value),
            },
            UnaryOperator::AddressOf => match result {
                ExpressionResult::Value => spec_compile_expression(*operand, env, data, ExpressionResult::Adress),
                ExpressionResult::Adress => None,
            },
            UnaryOperator::Negation => match spec_compile_expression(*operand, env, data, result) {
                Some((c, d)) => Some((
                    c + seq![
                        InstructionV::Pop(reg(Register::R14)),
                        InstructionV::Xor(reg(Register::R14), lit(1)),
                        InstructionV::Push(reg(Register::R14)),
                    ],
                    d,
                )),
                None => None,
            },
        },
        _ => None,
    }
}


/// Appends one instruction to the code.
pub fn emit(output: &mut CompilationResult, instruction: Instruction)
    ensures
        final(output).data == old(output).data,
        instructions_view(final(output).code@) == instructions_view(old(output).code@).push(instruction@),
{
    output.code.push(instruction);
    assert(instructions_view(output.code@) =~= instructions_view(old(output).code@).push(instruction@));
}

/// Appends instructions to the code.
pub fn emit_all(output: &mut CompilationResult, instructions: Vec<Instruction>)
    ensures
        final(output).data == old(output).data,
        instructions_view(final(output).code@) == instructions_view(old(output).code@) + instructions_view(instructions@),
{
    let mut instructions = instructions;
    let ghost added = instructions@;
    output.code.append(&mut instructions);
    assert(instructions_view(output.code@) =~= instructions_view(old(output).code@) + instructions_view(added));
}

/// Returns the size of type in bytes on the heap
fn type_size_heap(type_: &Type) -> (r: u32)
    ensures
        r == spec_type_size_heap(*type_),
{
    match type_ {
        Type::Bool => 1,
        Type::Int => 8,
        Type::Void => 0,
        Type::Char => 1,
        Type::Pointer(_) => 8,
    }
}

/// Compile an expression, leaves result of the expression on the stack
pub fn compile_expression(
    expression: &ExprType,
    output: &mut CompilationResult,
    env: &Environment,
    result: ExpressionResult,
)
    requires
        old(output).data.wf(),
        env.local.wf(),
        spec_compile_expression(*expression, env.local.entries@, entries_view(old(output).data.entries@), result) is Some,
    ensures
        spec_emitted(*old(output), *final(output), spec_compile_expression(*expression, env.local.entries@, entries_view(old(output).data.entries@), result)->0),
    decreases expression, 2int, 0int,
{
    reveal(spec_compile_expression);
    match &expression.0 {
        TypedExpression::Literal(literal) => compile_literal(literal, output),
        TypedExpression::Var(var) => compile_variable(var, output, env, result),
        TypedExpression::BinaryOp(_, _, _) => compile_binary_operator(expression, output, env, result),
        TypedExpression::FunctionCall(_, _) => compile_function_call(expression, output, env),
        TypedExpression::BuiltInFunctionCall(name, _) => {
            let syscall = String::from_str("syscall");
            if *name == syscall {
                compile_syscall(expression, output, env);
            }
        },
        TypedExpression::UnaryOp(_, _) => compile_unary_operator(expression, output, env, result),
        TypedExpression::Cast(type_, operand) => compile_cast(type_, operand, output, env, result),
    }
}

/// Compile a cast expression
fn compile_cast(
    type_: &Type,
    operand: &ExprType,
    output: &mut CompilationResult,
    env: &Environment,
    result: ExpressionResult,
)
    requires
        old(output).data.wf(),
        env.local.wf(),
        spec_compile_expression(*operand, env.local.entries@, entries_view(old(output).data.entries@), result) is Some,
    ensures
        spec_emitted(*old(output), *final(output), spec_compile_expression(*operand, env.local.entries@, entries_view(old(output).data.entries@), result)->0),
    decreases operand, 3int, 0int,
{
    compile_expression(operand, output, env, result);
    // all the supported casts don't do any logic, just for the type checker, so no code here
}

/// Compile a literal expression
#[verifier::spinoff_prover]
fn compile_literal(literal: &Literal, output: &mut CompilationResult)
    requires
        old(output).data.wf(),
    ensures
        spec_emitted(*old(output), *final(output), spec_compile_literal(*literal, entries_view(old(output).data.entries@))),
{
    let ghost start = instructions_view(output.code@);
    match literal {
        Literal::Bool(b) => {
            let val = if *b { 1 } else { 0 };
            emit(output, Instruction::Push(Operand::Immediate(ImmediateValue::Literal(val))));
            assert(instructions_view(output.code@) =~= start + spec_compile_literal(*literal, entries_view(old(output).data.entries@)).0);
        },
        Literal::Int(i) => {
            emit(output, Instruction::Push(Operand::Immediate(ImmediateValue::Literal(*i))));
            assert(instructions_view(output.code@) =~= start + spec_compile_literal(*literal, entries_view(old(output).data.entries@)).0);
        },
        Literal::String(str) => {
            let mut string_data = vstd::slice::slice_to_vec(str.as_str().as_bytes());
            // Null terminated string
            string_data.push(0);
            let mut label = String::from_str("string_literal:");
            label.append(str.as_str());
            let key = label.clone();
            proof {
                lemma_insert(output.data.entries@, key, string_data);
                lemma_insert_view(output.data.entries@, key, string_data);
            }
            assert(string_data@ == vstd::utf8::encode_utf8(str@).push(0u8));
            assert(key@ == "string_literal:"@ + str@);
            output.data.insert(key, string_data);
            let ghost l = label@;
            emit(output, Instruction::Push(Operand::Immediate(ImmediateValue::Label(label, SegmentType::Data))));
            assert(instructions_view(output.code@) =~= start + spec_compile_literal(*literal, entries_view(old(output).data.entries@)).0);
        },
    }
}

/// The register that holds the i-th value of a system call
fn syscall_register(i: usize) -> (r: Register)
    ensures
        r == spec_syscall_register(i as int),
{
    if i == 0 {
        Register::RAX
    } else if i == 1 {
        Register::RDI
    } else if i == 2 {
        Register::RSI
    } else if i == 3 {
        Register::RDX
    } else if i == 4 {
        Register::R10
    } else if i == 5 {
        Register::R8
    } else {
        Register::R9
    }
}

/// Compile the arguments of a call, first argument first, each leaving its value on the stack
#[verifier::spinoff_prover]
fn compile_arguments(expression: &ExprType, output: &mut CompilationResult, env: &Environment)
    requires
        old(output).data.wf(),
        env.local.wf(),
        spec_compile_arguments(*expression, 0, env.local.entries@, entries_view(old(output).data.entries@)) is Some,
    ensures
        spec_emitted(*old(output), *final(output), spec_compile_arguments(*expression, 0, env.local.entries@, entries_view(old(output).data.entries@))->0),
    decreases expression, 0int, spec_arguments(*expression).len() + 1,
{
    let args = match &expression.0 {
        TypedExpression::FunctionCall(_, args) => args,
        TypedExpression::BuiltInFunctionCall(_, args) => args,
        _ => {
            return ;
        },
    };
    let ghost e = *expression;
    let ghost envs = env.local.entries@;
    let ghost total = spec_compile_arguments(e, 0, envs, entries_view(output.data.entries@))->0;
    let ghost start = instructions_view(output.code@);
    let mut i: usize = 0;
    while i < args.len()
        invariant
            args@ == spec_arguments(e),
            e == *expression,
            i <= args@.len(),
            env.local.wf(),
            envs == env.local.entries@,
            output.data.wf(),
            spec_compile_arguments(e, i as int, envs, entries_view(output.data.entries@)) is Some,
            instructions_view(output.code@) + spec_compile_arguments(e, i as int, envs, entries_view(output.data.entries@)).unwrap().0
                == start + total.0,
            spec_compile_arguments(e, i as int, envs, entries_view(output.data.entries@)).unwrap().1 == total.1,
        decreases args@.len() - i,
    {
        let ghost before = instructions_view(output.code@);
        let ghost rest = spec_compile_arguments(e, i as int, envs, entries_view(output.data.entries@))->0;
        compile_expression(&args[i], output, env, ExpressionResult::Value);
        proof {
            let c1 = spec_compile_expression(args@[i as int], envs, entries_view(old(output).data.entries@), ExpressionResult::Value);
            assert(instructions_view(output.code@) + spec_compile_arguments(e, i + 1, envs, entries_view(output.data.entries@)).unwrap().0
                =~= before + rest.0);
        }
        i = i + 1;
    }
    proof {
        assert(spec_compile_arguments(e, i as int, envs, entries_view(output.data.entries@)).unwrap().0 =~= Seq::<InstructionV>::empty());
        assert(instructions_view(output.code@) =~= start + total.0);
    }
}

/// Compile function call
/// Pushes arguments to stack, first arguments on the bottom
#[verifier::spinoff_prover]
fn compile_function_call(expression: &ExprType, output: &mut CompilationResult, env: &Environment)
    requires
        old(output).data.wf(),
        env.local.wf(),
        spec_compile_function_call(*expression, env.local.entries@, entries_view(old(output).data.entries@)) is Some,
    ensures
        spec_emitted(*old(output), *final(output), spec_compile_function_call(*expression, env.local.entries@, entries_view(old(output).data.entries@)).unwrap()),
    decreases expression, 1int, 0int,
{
    let (identifier, arguments) = match &expression.0 {
        TypedExpression::FunctionCall(identifier, arguments) => (identifier, arguments),
        _ => {
            return ;
        },
    };
    let ghost start = instructions_view(output.code@);
    let arg_size = arguments.len() * 8;
    compile_arguments(expression, output, env);
    let ghost mid = instructions_view(output.code@);
    emit(output, Instruction::Call(Operand::Immediate(ImmediateValue::Label(identifier.clone(), SegmentType::Text))));
    // Free up arguments again
    emit(output, Instruction::Add(Operand::Register(Register::RSP), Operand::Immediate(ImmediateValue::Literal(arg_size as i64))));
    // Push function result onto the stack
    emit(output, Instruction::Push(Operand::Register(Register::RAX)));
    proof {
        let c = spec_compile_arguments(*expression, 0, env.local.entries@, entries_view(old(output).data.entries@)).unwrap().0;
        assert(instructions_view(output.code@) =~= start + spec_compile_function_call(*expression, env.local.entries@, entries_view(old(output).data.entries@)).unwrap().0);
    }
}

/// Compile systemcall expression, leaves 64 bit result from RAX register on the stack
#[verifier::spinoff_prover]
fn compile_syscall(expression: &ExprType, output: &mut CompilationResult, env: &Environment)
    requires
        old(output).data.wf(),
        env.local.wf(),
        spec_compile_syscall(*expression, env.local.entries@, entries_view(old(output).data.entries@)) is Some,
        expression.0 is BuiltInFunctionCall,
    ensures
        spec_emitted(*old(output), *final(output), spec_compile_syscall(*expression, env.local.entries@, entries_view(old(output).data.entries@)).unwrap()),
    decreases expression, 1int, 0int,
{
    let len = match &expression.0 {
        TypedExpression::BuiltInFunctionCall(_, arguments) => arguments.len(),
        _ => {
            return ;
        },
    };
    let ghost start = instructions_view(output.code@);
    compile_arguments(expression, output, env);
    let ghost mid = instructions_view(output.code@);
    let ghost mid_data = output.data;
    let mut k: usize = len;
    assert(spec_syscall_pops(len as nat).take(0) =~= Seq::<InstructionV>::empty());
    while k > 0
        invariant
            k <= len <= 7,
            output.data.wf(),
            output.data == mid_data,
            instructions_view(output.code@) == mid + spec_syscall_pops(len as nat).take(len - k),
        decreases k,
    {
        let ghost before = instructions_view(output.code@);
        emit(output, Instruction::Pop(Operand::Register(syscall_register(k - 1))));
        assert(spec_syscall_pops(len as nat).take(len - k + 1) =~= spec_syscall_pops(len as nat).take(len - k).push(
            InstructionV::Pop(reg(spec_syscall_register(k - 1))),
        ));
        assert(instructions_view(output.code@) =~= mid + spec_syscall_pops(len as nat).take(len - k + 1));
        k = k - 1;
    }
    emit(output, Instruction::Syscall);
    // Push result onto stack
    emit(output, Instruction::Push(Operand::Register(Register::RAX)));
    proof {
        assert(spec_syscall_pops(len as nat).take(len as int) =~= spec_syscall_pops(len as nat));
        assert(instructions_view(output.code@) =~= start + spec_compile_syscall(*expression, env.local.entries@, entries_view(old(output).data.entries@)).unwrap().0);
    }
}

/// The instructions of an arithmetic, logic or comparison operator
fn operator_instructions(operator: Operator) -> (r: Vec<Instruction>)
    ensures
        instructions_view(r@) == spec_operator_instructions(operator),
{
    let r = match operator {
        Operator::Addition => vec![Instruction::Add(Operand::Register(Register::R14), Operand::Register(Register::R15))],
        Operator::Subtraction => vec![Instruction::Sub(Operand::Register(Register::R14), Operand::Register(Register::R15))],
        Operator::Multiplication => vec![Instruction::IMul(Operand::Register(Register::R14), Operand::Register(Register::R15))],
        Operator::And => vec![Instruction::And(Operand::Register(Register::R14), Operand::Register(Register::R15))],
        Operator::Or => vec![Instruction::Or(Operand::Register(Register::R14), Operand::Register(Register::R15))],
        Operator::LessEq => comparison(Instruction::SetLE(Operand::Register(Register::R14B))),
        Operator::Less => comparison(Instruction::SetL(Operand::Register(Register::R14B))),
        Operator::GreaterEquals => comparison(Instruction::SetGE(Operand::Register(Register::R14B))),
        Operator::Greater => comparison(Instruction::SetG(Operand::Register(Register::R14B))),
        Operator::Equals => comparison(Instruction::SetE(Operand::Register(Register::R14B))),
        Operator::NotEqual => comparison(Instruction::SetNE(Operand::Register(Register::R14B))),
        _ => Vec::new(),
    };
    assert(instructions_view(r@) =~= spec_operator_instructions(operator));
    r
}

/// Compare R14 with R15 and set R14 with the given instruction
fn comparison(set: Instruction) -> (r: Vec<Instruction>)
    ensures
        instructions_view(r@) == spec_comparison(set@),
{
    // set entire register to 0, otherwise upper 7 bytes might still contain non-zero values
    let r = vec![
        Instruction::Cmp(Operand::Register(Register::R14), Operand::Register(Register::R15)),
        Instruction::Mov(Operand::Register(Register::R14), Operand::Immediate(ImmediateValue::Literal(0))),
        set,
    ];
    assert(instructions_view(r@) =~= spec_comparison(set@));
    r
}

/// Compile operator experession
#[verifier::spinoff_prover]
fn compile_binary_operator(expression: &ExprType, output: &mut CompilationResult, env: &Environment, result: ExpressionResult)
    requires
        old(output).data.wf(),
        env.local.wf(),
        spec_compile_binary_operator(*expression, env.local.entries@, entries_view(old(output).data.entries@), result) is Some,
    ensures
        spec_emitted(*old(output), *final(output), spec_compile_binary_operator(*expression, env.local.entries@, entries_view(old(output).data.entries@), result).unwrap()),
    decreases expression, 1int, 0int,
{
    let (operator, operand1, operand2) = match &expression.0 {
        TypedExpression::BinaryOp(operator, operand1, operand2) => (*operator, operand1, operand2),
        _ => {
            return ;
        },
    };
    match operator {
        Operator::Assignment => {
            compile_assignment(expression, output, env, result);
            return ;
        },
        Operator::Division => {
            compile_division(DivisionResult::Quotient, expression, output, env, result);
            return ;
        },
        Operator::Modulo => {
            compile_division(DivisionResult::Remainder, expression, output, env, result);
            return ;
        },
        Operator::ArraySubScript => {
            compile_array_subscript(expression, output, env, result);
            return ;
        },
        _ => {},
    }
    let instructions = operator_instructions(operator);
    let ghost start = instructions_view(output.code@);
    compile_expression(operand1, output, env, result);
    compile_expression(operand2, output, env, result);
    // Pop operand2 into R15
    emit(output, Instruction::Pop(Operand::Register(Register::R15)));
    // Pop operand1 into R14
    emit(output, Instruction::Pop(Operand::Register(Register::R14)));
    emit_all(output, instructions);
    emit(output, Instruction::Push(Operand::Register(Register::R14)));
    proof {
        let d0 = entries_view(old(output).data.entries@);
        let envs = env.local.entries@;
        let r1 = spec_compile_expression(**operand1, envs, d0, result).unwrap();
        let r2 = spec_compile_expression(**operand2, envs, r1.1, result).unwrap();
        assert(instructions_view(output.code@) =~= start + spec_compile_binary_operator(*expression, envs, d0, result).unwrap().0);
    }
}

/// Whether a division results in the quotient or the remainder
enum DivisionResult {
    Quotient,
    Remainder,
}

#[verifier::spinoff_prover]
fn compile_division(
    div_result: DivisionResult,
    expression: &ExprType,
    output: &mut CompilationResult,
    env: &Environment,
    result: ExpressionResult,
)
    requires
        old(output).data.wf(),
        env.local.wf(),
        spec_compile_binary_operator(*expression, env.local.entries@, entries_view(old(output).data.entries@), result) is Some,
        match expression.0 {
            TypedExpression::BinaryOp(op, _, _) => match div_result {
                DivisionResult::Quotient => op == Operator::Division,
                DivisionResult::Remainder => op == Operator::Modulo,
            },
            _ => false,
        },
    ensures
        spec_emitted(*old(output), *final(output), spec_compile_binary_operator(*expression, env.local.entries@, entries_view(old(output).data.entries@), result).unwrap()),
    decreases expression, 0int, 0int,
{
    let (operand1, operand2) = match &expression.0 {
        TypedExpression::BinaryOp(_, operand1, operand2) => (operand1, operand2),
        _ => {
            return ;
        },
    };
    let ghost start = instructions_view(output.code@);
    compile_expression(operand1, output, env, result);
    compile_expression(operand2, output, env, result);
    emit(output, Instruction::Pop(Operand::Register(Register::R14)));
    emit(output, Instruction::Pop(Operand::Register(Register::RAX)));
    emit(output, Instruction::Mov(Operand::Register(Register::RDX), Operand::Immediate(ImmediateValue::Literal(0))));
    emit(output, Instruction::IDiv(Operand::Register(Register::R14)));
    let result_register = match div_result {
        DivisionResult::Quotient => Register::RAX,
        DivisionResult::Remainder => Register::RDX,
    };
    emit(output, Instruction::Push(Operand::Register(result_register)));
    proof {
        let d0 = entries_view(old(output).data.entries@);
        let envs = env.local.entries@;
        let r1 = spec_compile_expression(**operand1, envs, d0, result).unwrap();
        let r2 = spec_compile_expression(**operand2, envs, r1.1, result).unwrap();
        assert(instructions_view(output.code@) =~= start + spec_compile_binary_operator(*expression, envs, d0, result).unwrap().0);
    }
}

/// Compiles array subscript
#[verifier::spinoff_prover]
fn compile_array_subscript(expression: &ExprType, output: &mut CompilationResult, env: &Environment, result: ExpressionResult)
    requires
        old(output).data.wf(),
        env.local.wf(),
        spec_compile_binary_operator(*expression, env.local.entries@, entries_view(old(output).data.entries@), result) is Some,
        expression.0 matches TypedExpression::BinaryOp(Operator::ArraySubScript, _, _),
    ensures
        spec_emitted(*old(output), *final(output), spec_compile_binary_operator(*expression, env.local.entries@, entries_view(old(output).data.entries@), result).unwrap()),
    decreases expression, 0int, 0int,
{
    let (operand1, operand2) = match &expression.0 {
        TypedExpression::BinaryOp(_, operand1, operand2) => (operand1, operand2),
        _ => {
            return ;
        },
    };
    let ghost start = instructions_view(output.code@);
    // Even though this value needs to return an address, it is already a pointer type, so the value
    // contains an address already
    compile_expression(operand1, output, env, ExpressionResult::Value);
    compile_expression(operand2, output, env, ExpressionResult::Value);
    // pop offset into r15
    emit(output, Instruction::Pop(Operand::Register(Register::R15)));
    // pop base address into r14
    emit(output, Instruction::Pop(Operand::Register(Register::R14)));
    let size: i64 = type_size_heap(&expression.1) as i64;
    // If operand size is not a byte, we need to multiply the offset by the operand size
    if size != 1 {
        emit(output, Instruction::Mov(Operand::Register(Register::R13), Operand::Immediate(ImmediateValue::Literal(size))));
        emit(output, Instruction::IMul(Operand::Register(Register::R15), Operand::Register(Register::R13)));
    }
    // Add offset to base address
    emit(output, Instruction::Add(Operand::Register(Register::R15), Operand::Register(Register::R14)));
    match result {
        ExpressionResult::Value => {
            if size == 8 {
                emit(output, Instruction::Push(Operand::Indirect(Register::R15)));
            } else if size == 1 {
                // If type only has a single byte we don't want to move 8 bytes from the address
                // only 1, so we have to use movzx, which sets the other bytes to zero
                emit(output, Instruction::MovZX(Operand::Register(Register::R15), Operand::Indirect(Register::R15)));
                emit(output, Instruction::Push(Operand::Register(Register::R15)));
            }
        },
        ExpressionResult::Adress => emit(output, Instruction::Push(Operand::Register(Register::R15))),
    }
    proof {
        let d0 = entries_view(old(output).data.entries@);
        let envs = env.local.entries@;
        let r1 = spec_compile_expression(**operand1, envs, d0, ExpressionResult::Value).unwrap();
        let r2 = spec_compile_expression(**operand2, envs, r1.1, ExpressionResult::Value).unwrap();
        assert(instructions_view(output.code@) =~= start + spec_compile_binary_operator(*expression, envs, d0, result).unwrap().0);
    }
}

/// Compiles assignment operator
#[verifier::spinoff_prover]
fn compile_assignment(expression: &ExprType, output: &mut CompilationResult, env: &Environment, result: ExpressionResult)
    requires
        old(output).data.wf(),
        env.local.wf(),
        spec_compile_binary_operator(*expression, env.local.entries@, entries_view(old(output).data.entries@), result) is Some,
        expression.0 matches TypedExpression::BinaryOp(Operator::Assignment, _, _),
    ensures
        spec_emitted(*old(output), *final(output), spec_compile_binary_operator(*expression, env.local.entries@, entries_view(old(output).data.entries@), result).unwrap()),
    decreases expression, 0int, 0int,
{
    let (operand1, operand2) = match &expression.0 {
        TypedExpression::BinaryOp(_, operand1, operand2) => (operand1, operand2),
        _ => {
            return ;
        },
    };
    let ghost start = instructions_view(output.code@);
    let size = type_size_heap(&operand1.1);
    // Compile target address
    compile_expression(operand1, output, env, ExpressionResult::Adress);
    // Compile value
    compile_expression(operand2, output, env, result);
    // Pop value into R15
    emit(output, Instruction::Pop(Operand::Register(Register::R15)));
    // Pop target address into R14
    emit(output, Instruction::Pop(Operand::Register(Register::R14)));
    // Assign value
    let source = if size == 8 { Register::R15 } else { Register::R15B };
    emit(output, Instruction::Mov(Operand::Indirect(Register::R14), Operand::Register(source)));
    // Push value onto stack again
    emit(output, Instruction::Push(Operand::Register(Register::R15)));
    proof {
        let d0 = entries_view(old(output).data.entries@);
        let envs = env.local.entries@;
        let r1 = spec_compile_expression(**operand1, envs, d0, ExpressionResult::Adress).unwrap();
        let r2 = spec_compile_expression(**operand2, envs, r1.1, result).unwrap();
        assert(instructions_view(output.code@) =~= start + spec_compile_binary_operator(*expression, envs, d0, result).unwrap().0);
    }
}

/// Compile unary operator experession
#[verifier::spinoff_prover]
fn compile_unary_operator(expression: &ExprType, output: &mut CompilationResult, env: &Environment, result: ExpressionResult)
    requires
        old(output).data.wf(),
        env.local.wf(),
        spec_compile_unary_operator(*expression, env.local.entries@, entries_view(old(output).data.entries@), result) is Some,
    ensures
        spec_emitted(*old(output), *final(output), spec_compile_unary_operator(*expression, env.local.entries@, entries_view(old(output).data.entries@), result).unwrap()),
    decreases expression, 1int, 0int,
{
    let (operator, operand) = match &expression.0 {
        TypedExpression::UnaryOp(operator, operand) => (*operator, operand),
        _ => {
            return ;
        },
    };
    let ghost start = instructions_view(output.code@);
    let ghost d0 = entries_view(output.data.entries@);
    let ghost envs = env.local.entries@;
    assert(expression.0 == TypedExpression::UnaryOp(operator, *operand));
    proof { reveal_with_fuel(spec_compile_unary_operator, 1); }
    assert(spec_compile_unary_operator(*expression, envs, d0, result) is Some);
    match operator {
        UnaryOperator::Dereference => {
            match result {
                ExpressionResult::Value => {
                    let ghost e = *expression;
                    let ghost b: ExprType = **operand;
                    assert(e.0 == TypedExpression::UnaryOp(UnaryOperator::Dereference, Box::new(b)));
                    assert(spec_compile_unary_operator(e, envs, d0, ExpressionResult::Value) == match spec_compile_expression(b, envs, d0, ExpressionResult::Value) {
                        Some((c, d)) => Some((
                            c + seq![InstructionV::Pop(reg(Register::R14)), InstructionV::Push(OperandV::Indirect(Register::R14))],
                            d,
                        )),
                        None => None,
                    });
                    compile_expression(operand, output, env, result);
                    // Pop operand into R14
                    emit(output, Instruction::Pop(Operand::Register(Register::R14)));
                    emit(output, Instruction::Push(Operand::Indirect(Register::R14)));
                },
                ExpressionResult::Adress => {
                    // We need an address as result this negates the dereference in a way, so just
                    // call the next function but with value as result type
                    compile_expression(operand, output, env, ExpressionResult::Value);
                },
            }
        },
        UnaryOperator::AddressOf => {
            match result {
                ExpressionResult::Value => {
                    compile_expression(operand, output, env, ExpressionResult::Adress);
                },
                ExpressionResult::Adress => {},
            }
        },
        UnaryOperator::Negation => {
            compile_expression(operand, output, env, result);
            emit(output, Instruction::Pop(Operand::Register(Register::R14)));
            // Can't use bitwise not, as it flips all bits, not just the least significant one
            emit(output, Instruction::Xor(Operand::Register(Register::R14), Operand::Immediate(ImmediateValue::Literal(1))));
            emit(output, Instruction::Push(Operand::Register(Register::R14)));
        },
    }
    assert(instructions_view(output.code@) =~= start + spec_compile_unary_operator(*expression, envs, d0, result).unwrap().0);
}

/// Compile variable expression
#[verifier::spinoff_prover]
fn compile_variable(identifier: &String, output: &mut CompilationResult, env: &Environment, result: ExpressionResult)
    requires
        old(output).data.wf(),
        env.local.wf(),
        spec_compile_variable(identifier@, env.local.entries@, entries_view(old(output).data.entries@), result) is Some,
    ensures
        spec_emitted(*old(output), *final(output), (spec_compile_variable(identifier@, env.local.entries@, entries_view(old(output).data.entries@), result).unwrap(), entries_view(old(output).data.entries@))),
{
    match env.local.get(identifier) {
        Some(offset) => compile_local_variable(output, *offset, result),
        None => {
            let label = format_variable_label(identifier.as_str());
            proof {
                // the label is among the data labels exactly when an entry's view has it
                let s = output.data.entries@;
                if crate::string_map::vhas_key(entries_view(s), label@) {
                    let i = choose|i: int| 0 <= i < entries_view(s).len() && #[trigger] entries_view(s)[i].0 == label@;
                    assert(s[i].0@ == label@);
                }
            }
            if output.data.contains_key(&label) {
                compile_global_variable(label, output, result);
            }
        },
    }
}

/// compile local variable expression
fn compile_local_variable(output: &mut CompilationResult, offset: i32, result: ExpressionResult)
    requires
        old(output).data.wf(),
    ensures
        spec_emitted(*old(output), *final(output), (spec_compile_local_variable(offset, result), entries_view(old(output).data.entries@))),
{
    let ghost start = instructions_view(output.code@);
    match result {
        ExpressionResult::Value => emit(output, Instruction::Push(Operand::IndirectDisplacement(Register::RBP, offset))),
        ExpressionResult::Adress => {
            emit(output, Instruction::LEA(Operand::Register(Register::R14), Operand::IndirectDisplacement(Register::RBP, offset)));
            emit(output, Instruction::Push(Operand::Register(Register::R14)));
        },
    }
    assert(instructions_view(output.code@) =~= start + spec_compile_local_variable(offset, result));
}

fn compile_global_variable(label: String, output: &mut CompilationResult, result: ExpressionResult)
    requires
        old(output).data.wf(),
    ensures
        spec_emitted(*old(output), *final(output), (spec_compile_global_variable(label@, result), entries_view(old(output).data.entries@))),
{
    let ghost start = instructions_view(output.code@);
    let ghost l = label@;
    match result {
        ExpressionResult::Value => {
            emit(output, Instruction::Mov(Operand::Register(Register::R15), Operand::Immediate(ImmediateValue::Label(label, SegmentType::Data))));
            emit(output, Instruction::Push(Operand::Indirect(Register::R15)));
        },
        ExpressionResult::Adress => emit(output, Instruction::Push(Operand::Immediate(ImmediateValue::Label(label, SegmentType::Data)))),
    }
    assert(instructions_view(output.code@) =~= start + spec_compile_global_variable(l, result));
}

/// How an instruction moves the stack pointer, in 8 byte slots: pushes grow the stack,
/// pops shrink it, adding to RSP frees slots, and leave pops the saved frame pointer.
pub open spec fn spec_stack_effect(instruction: InstructionV) -> int {
    match instruction {
        InstructionV::Push(_) => 1,
        InstructionV::Pop(_) => -1,
        InstructionV::Add(OperandV::Register(Register::RSP), OperandV::Immediate(ImmediateValueV::Literal(k))) => -(k / 8),
        InstructionV::Sub(OperandV::Register(Register::RSP), OperandV::Immediate(ImmediateValueV::Literal(k))) => k / 8,
        InstructionV::Leave => -1,
        _ => 0,
    }
}

/// The net stack effect of straight line code.
pub open spec fn spec_stack_delta(code: Seq<InstructionV>) -> int
    decreases code.len(),
{
    if code.len() == 0 {
        0
    } else {
        spec_stack_delta(code.drop_last()) + spec_stack_effect(code.last())
    }
}

pub proof fn lemma_stack_delta_append(a: Seq<InstructionV>, b: Seq<InstructionV>)
    ensures
        spec_stack_delta(a + b) == spec_stack_delta(a) + spec_stack_delta(b),
    decreases b.len(),
{
    if b.len() > 0 {
        assert((a + b).drop_last() =~= a + b.drop_last());
        lemma_stack_delta_append(a, b.drop_last());
    } else {
        assert(a + b =~= a);
    }
}

pub proof fn lemma_stack_delta_syscall_pops(len: nat)
    ensures
        spec_stack_delta(spec_syscall_pops(len)) == -(len as int),
    decreases len,
{
    if len > 0 {
        let s = spec_syscall_pops(len);
        let p = spec_syscall_pops((len - 1) as nat);
        assert(s =~= seq![InstructionV::Pop(reg(spec_syscall_register(len - 1)))] + p);
        lemma_stack_delta_syscall_pops((len - 1) as nat);
        lemma_stack_delta_append(seq![InstructionV::Pop(reg(spec_syscall_register(len - 1)))], p);
        assert(spec_stack_delta(seq![InstructionV::Pop(reg(spec_syscall_register(len - 1)))]) == -1) by {
            reveal_with_fuel(spec_stack_delta, 2);
        }
    } else {
        assert(spec_syscall_pops(0) =~= Seq::<InstructionV>::empty());
    }
}

/// Stack delta of a short sequence, by unfolding.
pub proof fn lemma_stack_delta_small(code: Seq<InstructionV>)
    requires
        code.len() <= 6,
    ensures
        spec_stack_delta(code) == (if code.len() > 0 { spec_stack_effect(code[0]) } else { 0 })
            + (if code.len() > 1 { spec_stack_effect(code[1]) } else { 0 })
            + (if code.len() > 2 { spec_stack_effect(code[2]) } else { 0 })
            + (if code.len() > 3 { spec_stack_effect(code[3]) } else { 0 })
            + (if code.len() > 4 { spec_stack_effect(code[4]) } else { 0 })
            + (if code.len() > 5 { spec_stack_effect(code[5]) } else { 0 }),
    decreases code.len(),
{
    if code.len() > 0 {
        lemma_stack_delta_small(code.drop_last());
    }
}

/// Compiled code of an expression leaves exactly one more value on the stack: its
/// value or its address.
#[verifier::spinoff_prover]
pub proof fn lemma_expression_stack_effect(e: ExprType, env: Seq<(String, i32)>, data: DataView, result: ExpressionResult)
    requires
        spec_compile_expression(e, env, data, result) is Some,
    ensures
        spec_stack_delta(spec_compile_expression(e, env, data, result).unwrap().0) == 1,
    decreases e, 2int, 0int,
{
    reveal(spec_compile_expression);
    let c = spec_compile_expression(e, env, data, result).unwrap().0;
    match e.0 {
        TypedExpression::Literal(l) => {
            assert(c == spec_compile_literal(l, data).0);
            match l {
                Literal::String(st) => {
                    assert(c =~= seq![InstructionV::Push(label_operand("string_literal:"@ + st@, SegmentType::Data))]);
                },
                Literal::Bool(b) => {
                    assert(c =~= seq![InstructionV::Push(lit(if b { 1 } else { 0 }))]);
                },
                Literal::Int(i) => {
                    assert(c =~= seq![InstructionV::Push(lit(i))]);
                },
            }
            lemma_stack_delta_small(c);
            assert(c.len() == 1);
            assert(spec_stack_effect(c[0]) == 1);
            assert(spec_stack_delta(c) == 1);
        },
        TypedExpression::Var(v) => {
            lemma_stack_delta_small(c);
            match lookup(env, v@) {
                Some(offset) => {
                    assert(c == spec_compile_local_variable(offset, result));
                },
                None => {
                    assert(c == spec_compile_global_variable("globalvar:"@ + v@, result));
                },
            }
            assert(spec_stack_delta(c) == 1);
        },
        TypedExpression::BinaryOp(_, _, _) => {
            assert(spec_compile_expression(e, env, data, result) == spec_compile_binary_operator(e, env, data, result));
            lemma_binary_operator_stack_effect(e, env, data, result);
            assert(spec_stack_delta(c) == 1);
        },
        TypedExpression::FunctionCall(_, args) => {
            assert(spec_compile_expression(e, env, data, result) == spec_compile_function_call(e, env, data));
            assert(spec_compile_arguments(e, 0, env, data) is Some);
            lemma_arguments_stack_effect(e, 0, env, data);
            let ca = spec_compile_arguments(e, 0, env, data).unwrap().0;
            let tail = seq![
                InstructionV::Call(label_operand(match e.0 { TypedExpression::FunctionCall(id, _) => id@, _ => Seq::empty() }, SegmentType::Text)),
                InstructionV::Add(reg(Register::RSP), lit((args.len() * 8) as i64)),
                InstructionV::Push(reg(Register::RAX)),
            ];
            lemma_stack_delta_append(ca, tail);
            lemma_stack_delta_small(tail);
            assert(c == ca + tail);
            let k = (args.len() * 8) as i64;
            assert(k == args.len() * 8);
            assert(k / 8 == args.len());
            assert(spec_stack_effect(tail[1]) == -(args.len() as int));
            assert(spec_stack_delta(c) == 1);
        },
        TypedExpression::BuiltInFunctionCall(_, args) => {
            assert(spec_compile_expression(e, env, data, result) == spec_compile_syscall(e, env, data));
            assert(spec_compile_arguments(e, 0, env, data) is Some);
            lemma_arguments_stack_effect(e, 0, env, data);
            let len = args.len();
            let ca = spec_compile_arguments(e, 0, env, data).unwrap().0;
            let tail = seq![InstructionV::Syscall, InstructionV::Push(reg(Register::RAX))];
            lemma_stack_delta_syscall_pops(len as nat);
            lemma_stack_delta_append(ca, spec_syscall_pops(len as nat));
            lemma_stack_delta_append(ca + spec_syscall_pops(len as nat), tail);
            lemma_stack_delta_small(tail);
            assert(spec_stack_delta(c) == 1);
        },
        TypedExpression::UnaryOp(_, _) => {
            assert(spec_compile_expression(e, env, data, result) == spec_compile_unary_operator(e, env, data, result));
            lemma_unary_operator_stack_effect(e, env, data, result);
            assert(spec_stack_delta(c) == 1);
        },
        TypedExpression::Cast(_, operand) => {
            assert(spec_compile_expression(e, env, data, result) == spec_compile_expression(*operand, env, data, result));
            lemma_expression_stack_effect(*operand, env, data, result);
            assert(spec_stack_delta(c) == 1);
        },
    }
}

#[verifier::spinoff_prover]
pub proof fn lemma_arguments_stack_effect(e: ExprType, i: int, env: Seq<(String, i32)>, data: DataView)
    requires
        0 <= i <= spec_arguments(e).len(),
        spec_compile_arguments(e, i, env, data) is Some,
    ensures
        spec_stack_delta(spec_compile_arguments(e, i, env, data).unwrap().0) == spec_arguments(e).len() - i,
    decreases e, 0int, spec_arguments(e).len() - i,
{
    let args = spec_arguments(e);
    if i < args.len() {
        let (c1, d1) = spec_compile_expression(args[i], env, data, ExpressionResult::Value).unwrap();
        lemma_expression_stack_effect(args[i], env, data, ExpressionResult::Value);
        lemma_arguments_stack_effect(e, i + 1, env, d1);
        lemma_stack_delta_append(c1, spec_compile_arguments(e, i + 1, env, d1).unwrap().0);
    }
}

#[verifier::spinoff_prover]
pub proof fn lemma_binary_operator_stack_effect(e: ExprType, env: Seq<(String, i32)>, data: DataView, result: ExpressionResult)
    requires
        spec_compile_binary_operator(e, env, data, result) is Some,
    ensures
        spec_stack_delta(spec_compile_binary_operator(e, env, data, result).unwrap().0) == 1,
    decreases e, 1int, 0int,
{
    match e.0 {
        TypedExpression::BinaryOp(operator, operand1, operand2) => {
            let r1 = match operator {
                Operator::Assignment => ExpressionResult::Adress,
                Operator::ArraySubScript => ExpressionResult::Value,
                _ => result,
            };
            let r2 = match operator {
                Operator::ArraySubScript => ExpressionResult::Value,
                _ => result,
            };
            let (c1, d1) = spec_compile_expression(*operand1, env, data, r1).unwrap();
            let (c2, d2) = spec_compile_expression(*operand2, env, d1, r2).unwrap();
            let tail = spec_binary_operator_tail(operator, operand1.1, e.1, result).unwrap();
            lemma_expression_stack_effect(*operand1, env, data, r1);
            lemma_expression_stack_effect(*operand2, env, d1, r2);
            lemma_stack_delta_append(c1, c2);
            lemma_stack_delta_append(c1 + c2, tail);
            lemma_binary_tail_stack_effect(operator, operand1.1, e.1, result);
        },
        _ => {},
    }
}

#[verifier::spinoff_prover]
pub proof fn lemma_binary_tail_stack_effect(operator: Operator, operand1_type: Type, type_: Type, result: ExpressionResult)
    requires
        spec_binary_operator_tail(operator, operand1_type, type_, result) is Some,
    ensures
        spec_stack_delta(spec_binary_operator_tail(operator, operand1_type, type_, result).unwrap()) == -1,
{
    let tail = spec_binary_operator_tail(operator, operand1_type, type_, result).unwrap();
    match operator {
        Operator::ArraySubScript => {
            let size = spec_type_size_heap(type_);
            let scale = if size != 1 {
                seq![InstructionV::Mov(reg(Register::R13), lit(size as i64)), InstructionV::IMul(reg(Register::R15), reg(Register::R13))]
            } else {
                Seq::empty()
            };
            let pops = seq![InstructionV::Pop(reg(Register::R15)), InstructionV::Pop(reg(Register::R14))];
            let add = seq![InstructionV::Add(reg(Register::R15), reg(Register::R14))];
            let head = pops + scale + add;
            lemma_stack_delta_small(pops);
            lemma_stack_delta_small(scale);
            lemma_stack_delta_small(add);
            lemma_stack_delta_append(pops, scale);
            lemma_stack_delta_append(pops + scale, add);
            let last = tail.subrange(head.len() as int, tail.len() as int);
            assert(tail =~= head + last);
            lemma_stack_delta_small(last);
            lemma_stack_delta_append(head, last);
        },
        Operator::Assignment | Operator::Division | Operator::Modulo => {
            lemma_stack_delta_small(tail);
        },
        _ => {
            let pops = seq![InstructionV::Pop(reg(Register::R15)), InstructionV::Pop(reg(Register::R14))];
            let ops = spec_operator_instructions(operator);
            let push = seq![InstructionV::Push(reg(Register::R14))];
            lemma_stack_delta_small(pops);
            lemma_stack_delta_small(ops);
            lemma_stack_delta_small(push);
            lemma_stack_delta_append(pops, ops);
            lemma_stack_delta_append(pops + ops, push);
        },
    }
}

#[verifier::spinoff_prover]
pub proof fn lemma_unary_operator_stack_effect(e: ExprType, env: Seq<(String, i32)>, data: DataView, result: ExpressionResult)
    requires
        spec_compile_unary_operator(e, env, data, result) is Some,
    ensures
        spec_stack_delta(spec_compile_unary_operator(e, env, data, result).unwrap().0) == 1,
    decreases e, 1int, 0int,
{
    match e.0 {
        TypedExpression::UnaryOp(operator, operand) => {
            match operator {
                UnaryOperator::Dereference => match result {
                    ExpressionResult::Value => {
                        let (c, d) = spec_compile_expression(*operand, env, data, ExpressionResult::Value).unwrap();
                        lemma_expression_stack_effect(*operand, env, data, ExpressionResult::Value);
                        let tail = seq![InstructionV::Pop(reg(Register::R14)), InstructionV::Push(OperandV::Indirect(Register::R14))];
                        lemma_stack_delta_append(c, tail);
                        lemma_stack_delta_small(tail);
                    },
                    ExpressionResult::Adress => lemma_expression_stack_effect(*operand, env, data, ExpressionResult::Value),
                },
                UnaryOperator::AddressOf => lemma_expression_stack_effect(*operand, env, data, ExpressionResult::Adress),
                UnaryOperator::Negation => {
                    let (c, d) = spec_compile_expression(*operand, env, data, result).unwrap();
                    lemma_expression_stack_effect(*operand, env, data, result);
                    let tail = seq![
                        InstructionV::Pop(reg(Register::R14)),
                        InstructionV::Xor(reg(Register::R14), lit(1)),
                        InstructionV::Push(reg(Register::R14)),
                    ];
                    lemma_stack_delta_append(c, tail);
                    lemma_stack_delta_small(tail);
                },
            }
        },
        _ => {},
    }
}

/// The names of the global variables that the data holds.
pub open spec fn globals_of(data: DataView) -> Set<Seq<char>> {
    Set::new(|id: Seq<char>| vhas_key(data, "globalvar:"@ + id))
}

/// A key under which a global variable's data is stored.
pub open spec fn is_global_key(key: Seq<char>) -> bool {
    key.len() >= 10 && key.take(10) == "globalvar:"@
}

/// The later data keeps every entry of the earlier data that belongs to a global
/// variable, at the same place and with the same bytes.
pub open spec fn keeps_globals(d1: DataView, d2: DataView) -> bool {
    &&& d1.len() <= d2.len()
    &&& forall|k: int| 0 <= k < d1.len() && is_global_key(#[trigger] d1[k].0) ==> d2[k] == d1[k]
}

/// Whether an expression compiles, given the local variables and the names of the global
/// variables: the conditions under which compiling it does not panic.
pub open spec fn expr_compiles(e: ExprType, env: Seq<(String, i32)>, globals: Set<Seq<char>>, result: ExpressionResult) -> bool
    decreases e, 1int, 0int,
{
    match e.0 {
        TypedExpression::Literal(_) => true,
        TypedExpression::Var(v) => lookup(env, v@) is Some || globals.contains(v@),
        TypedExpression::BinaryOp(operator, operand1, operand2) => {
            let r1 = match operator {
                Operator::Assignment => ExpressionResult::Adress,
                Operator::ArraySubScript => ExpressionResult::Value,
                _ => result,
            };
            let r2 = match operator {
                Operator::ArraySubScript => ExpressionResult::Value,
                _ => result,
            };
            &&& expr_compiles(*operand1, env, globals, r1)
            &&& expr_compiles(*operand2, env, globals, r2)
            &&& spec_binary_operator_tail(operator, operand1.1, e.1, result) is Some
        },
        TypedExpression::FunctionCall(_, args) => !(args.len() * 8 > usize::MAX || args.len() * 8 > i64::MAX)
            && arguments_compile(e, 0, env, globals),
        TypedExpression::BuiltInFunctionCall(name, args) => name@ == "syscall"@ && 1 <= args.len() <= 7
            && arguments_compile(e, 0, env, globals),
        TypedExpression::UnaryOp(operator, operand) => match operator {
            UnaryOperator::Dereference => expr_compiles(*operand, env, globals, ExpressionResult::Value),
            UnaryOperator::AddressOf => result == ExpressionResult::Value && expr_compiles(
                *operand,
                env,
                globals,
                ExpressionResult::Adress,
            ),
            UnaryOperator::Negation => expr_compiles(*operand, env, globals, result),
        },
        TypedExpression::Cast(_, operand) => expr_compiles(*operand, env, globals, result),
    }
}

/// Whether the arguments of a call from the `i`-th on compile.
pub open spec fn arguments_compile(e: ExprType, i: int, env: Seq<(String, i32)>, globals: Set<Seq<char>>) -> bool
    decreases e, 0int, spec_arguments(e).len() - i,
{
    let args = spec_arguments(e);
    if i < 0 || i >= args.len() {
        true
    } else {
        expr_compiles(args[i], env, globals, ExpressionResult::Value) && arguments_compile(e, i + 1, env, globals)
    }
}

/// Inserting a key keeps every other key and adds this one.
pub proof fn lemma_vinsert_has<V>(s: Seq<(Seq<char>, V)>, k: Seq<char>, v: V, k2: Seq<char>)
    ensures
        vhas_key(vinsert(s, k, v), k2) == (k2 == k || vhas_key(s, k2)),
{
    let t = vinsert(s, k, v);
    if vhas_key(s, k) {
        assert(t.len() == s.len());
        assert forall|idx: int| 0 <= idx < t.len() implies #[trigger] t[idx].0 == s[idx].0 by {}
        if vhas_key(s, k2) {
            let j = choose|j: int| 0 <= j < s.len() && #[trigger] s[j].0 == k2;
            assert(t[j].0 == k2);
        }
        if vhas_key(t, k2) {
            let j = choose|j: int| 0 <= j < t.len() && #[trigger] t[j].0 == k2;
            assert(s[j].0 == k2);
        }
    } else {
        assert(t == s.push((k, v)));
        assert(t[s.len() as int].0 == k);
        if vhas_key(s, k2) {
            let j = choose|j: int| 0 <= j < s.len() && #[trigger] s[j].0 == k2;
            assert(t[j] == s[j]);
        }
        if vhas_key(t, k2) {
            let j = choose|j: int| 0 <= j < t.len() && #[trigger] t[j].0 == k2;
            if j < s.len() {
                assert(t[j] == s[j]);
            }
        }
    }
}

/// Inserting a key keeps every entry with another key where it is.
pub proof fn lemma_vinsert_frame<V>(s: Seq<(Seq<char>, V)>, k: Seq<char>, v: V)
    ensures
        vinsert(s, k, v).len() >= s.len(),
        forall|j: int| 0 <= j < s.len() && s[j].0 != k ==> #[trigger] vinsert(s, k, v)[j] == s[j],
{
}

/// The data that compiling a literal leaves holds the same global variables.
pub proof fn lemma_literal_keeps_globals(l: Literal, data: DataView)
    ensures
        globals_of(spec_compile_literal(l, data).1) == globals_of(data),
        keeps_globals(data, spec_compile_literal(l, data).1),
{
    match l {
        Literal::String(s) => {
            let label = "string_literal:"@ + s@;
            let t = spec_compile_literal(l, data).1;
            assert forall|k: int| 0 <= k < data.len() && is_global_key(#[trigger] data[k].0) implies t[k] == data[k] by {
                reveal_strlit("string_literal:");
                reveal_strlit("globalvar:");
                lemma_vinsert_frame(data, label, vstd::utf8::encode_utf8(s@).push(0u8));
                if data[k].0 == label {
                    assert(label[0] == 's');
                    assert(data[k].0.take(10)[0] == data[k].0[0]);
                    assert("globalvar:"@[0] == 'g');
                }
            }
            assert forall|id: Seq<char>| #![auto] globals_of(spec_compile_literal(l, data).1).contains(id) == globals_of(data).contains(id) by {
                lemma_vinsert_has(data, label, vstd::utf8::encode_utf8(s@).push(0u8), "globalvar:"@ + id);
                reveal_strlit("string_literal:");
                reveal_strlit("globalvar:");
                assert(label[0] != ("globalvar:"@ + id)[0]);
            }
            assert(globals_of(spec_compile_literal(l, data).1) =~= globals_of(data));
        },
        _ => {},
    }
}

/// An expression compiles exactly when `expr_compiles` says so, and what it leaves of the
/// data holds the same global variables.
pub proof fn lemma_expr_compiles(e: ExprType, env: Seq<(String, i32)>, data: DataView, result: ExpressionResult)
    ensures
        (spec_compile_expression(e, env, data, result) is Some) == expr_compiles(e, env, globals_of(data), result),
        spec_compile_expression(e, env, data, result) is Some ==> globals_of(
            spec_compile_expression(e, env, data, result).unwrap().1,
        ) == globals_of(data),
        spec_compile_expression(e, env, data, result) is Some ==> keeps_globals(data, spec_compile_expression(e, env, data, result).unwrap().1),
    decreases e, 1int, 0int,
{
    reveal(spec_compile_expression);
    match e.0 {
        TypedExpression::Literal(l) => {
            lemma_literal_keeps_globals(l, data);
        },
        TypedExpression::Var(v) => {},
        TypedExpression::BinaryOp(operator, operand1, operand2) => {
            let r1 = match operator {
                Operator::Assignment => ExpressionResult::Adress,
                Operator::ArraySubScript => ExpressionResult::Value,
                _ => result,
            };
            let r2 = match operator {
                Operator::ArraySubScript => ExpressionResult::Value,
                _ => result,
            };
            assert(spec_compile_expression(e, env, data, result) == spec_compile_binary_operator(e, env, data, result));
            lemma_expr_compiles(*operand1, env, data, r1);
            match spec_compile_expression(*operand1, env, data, r1) {
                Some((c1, d1)) => {
                    lemma_expr_compiles(*operand2, env, d1, r2);
                },
                None => {},
            }
        },
        TypedExpression::FunctionCall(_, args) => {
            lemma_arguments_compile(e, 0, env, data);
            assert(spec_compile_expression(e, env, data, result) == spec_compile_function_call(e, env, data));
        },
        TypedExpression::BuiltInFunctionCall(name, args) => {
            lemma_arguments_compile(e, 0, env, data);
            if name@ == "syscall"@ {
                assert(spec_compile_expression(e, env, data, result) == spec_compile_syscall(e, env, data));
            }
        },
        TypedExpression::UnaryOp(operator, operand) => {
            assert(spec_compile_expression(e, env, data, result) == spec_compile_unary_operator(e, env, data, result));
            match operator {
                UnaryOperator::Dereference => {
                    lemma_expr_compiles(*operand, env, data, ExpressionResult::Value);
                },
                UnaryOperator::AddressOf => {
                    lemma_expr_compiles(*operand, env, data, ExpressionResult::Adress);
                },
                UnaryOperator::Negation => {
                    lemma_expr_compiles(*operand, env, data, result);
                },
            }
        },
        TypedExpression::Cast(_, operand) => {
            lemma_expr_compiles(*operand, env, data, result);
        },
    }
}

/// The arguments of a call from the `i`-th on compile exactly when `arguments_compile`
/// says so, and keep the global variables of the data.
pub proof fn lemma_arguments_compile(e: ExprType, i: int, env: Seq<(String, i32)>, data: DataView)
    ensures
        (spec_compile_arguments(e, i, env, data) is Some) == arguments_compile(e, i, env, globals_of(data)),
        spec_compile_arguments(e, i, env, data) is Some ==> globals_of(spec_compile_arguments(e, i, env, data).unwrap().1)
            == globals_of(data),
        spec_compile_arguments(e, i, env, data) is Some ==> keeps_globals(data, spec_compile_arguments(e, i, env, data).unwrap().1),
    decreases e, 0int, spec_arguments(e).len() - i,
{
    reveal(spec_compile_expression);
    let args = spec_arguments(e);
    if 0 <= i < args.len() {
        lemma_expr_compiles(args[i], env, data, ExpressionResult::Value);
        match spec_compile_expression(args[i], env, data, ExpressionResult::Value) {
            Some((c1, d1)) => {
                lemma_arguments_compile(e, i + 1, env, d1);
                assert(globals_of(d1) == globals_of(data));
            },
            None => {},
        }
    }
}

/// Whether an expression compiles: the local variables, the data with the global
/// variables, and whether its value or its address is wanted
pub(crate) fn expression_compiles(e: &ExprType, env: &Environment, globals: &StrMap<Vec<u8>>, result: ExpressionResult) -> (r: bool)
    requires
        env.local.wf(),
        globals.wf(),
    ensures
        r == expr_compiles(*e, env.local.entries@, globals_of(entries_view(globals.entries@)), result),
    decreases e, 1int, 0int,
{
    let ghost g = globals_of(entries_view(globals.entries@));
    match &e.0 {
        TypedExpression::Literal(_) => true,
        TypedExpression::Var(v) => {
            if env.local.contains_key(v) {
                return true;
            }
            let label = format_variable_label(v.as_str());
            proof {
                lemma_has_key_view(globals.entries@, label@);
            }
            globals.contains_key(&label)
        },
        TypedExpression::BinaryOp(operator, operand1, operand2) => {
            let r1 = match operator {
                Operator::Assignment => ExpressionResult::Adress,
                Operator::ArraySubScript => ExpressionResult::Value,
                _ => result,
            };
            let r2 = match operator {
                Operator::ArraySubScript => ExpressionResult::Value,
                _ => result,
            };
            if !expression_compiles(operand1, env, globals, r1) {
                return false;
            }
            if !expression_compiles(operand2, env, globals, r2) {
                return false;
            }
            match operator {
                Operator::Assignment => {
                    let size = type_size_heap(&operand1.1);
                    size == 8 || size == 1
                },
                Operator::ArraySubScript => match result {
                    ExpressionResult::Value => {
                        let size = type_size_heap(&e.1);
                        size == 8 || size == 1
                    },
                    ExpressionResult::Adress => true,
                },
                _ => true,
            }
        },
        TypedExpression::FunctionCall(_, args) => {
            let n = args.len();
            if n > usize::MAX / 8 {
                return false;
            }
            let bytes = n * 8;
            if bytes as u64 > i64::MAX as u64 {
                return false;
            }
            arguments_all_compile(e, args, env, globals)
        },
        TypedExpression::BuiltInFunctionCall(name, args) => {
            let syscall = String::from_str("syscall");
            if *name != syscall {
                return false;
            }
            let n = args.len();
            if n < 1 || n > 7 {
                return false;
            }
            arguments_all_compile(e, args, env, globals)
        },
        TypedExpression::UnaryOp(operator, operand) => match operator {
            UnaryOperator::Dereference => expression_compiles(operand, env, globals, ExpressionResult::Value),
            UnaryOperator::AddressOf => match result {
                ExpressionResult::Value => expression_compiles(operand, env, globals, ExpressionResult::Adress),
                ExpressionResult::Adress => false,
            },
            UnaryOperator::Negation => expression_compiles(operand, env, globals, result),
        },
        TypedExpression::Cast(_, operand) => expression_compiles(operand, env, globals, result),
    }
}

/// Whether all arguments of a call compile
fn arguments_all_compile(e: &ExprType, args: &Vec<ExprType>, env: &Environment, globals: &StrMap<Vec<u8>>) -> (r: bool)
    requires
        env.local.wf(),
        globals.wf(),
        args@ == spec_arguments(*e),
    ensures
        r == arguments_compile(*e, 0, env.local.entries@, globals_of(entries_view(globals.entries@))),
    decreases e, 0int, spec_arguments(*e).len() + 1,
{
    let ghost g = globals_of(entries_view(globals.entries@));
    let mut i: usize = 0;
    while i < args.len()
        invariant
            i <= args@.len(),
            args@ == spec_arguments(*e),
            env.local.wf(),
            globals.wf(),
            g == globals_of(entries_view(globals.entries@)),
            arguments_compile(*e, 0, env.local.entries@, g) == arguments_compile(*e, i as int, env.local.entries@, g),
        decreases args@.len() - i,
    {
        if !expression_compiles(&args[i], env, globals, ExpressionResult::Value) {
            return false;
        }
        i = i + 1;
    }
    true
}

} // verus!
