pub mod compile_expression;
pub mod semantics;

use vstd::prelude::*;

use rand::distr::{Alphanumeric, SampleString};

use crate::abstract_syntax_tree::{ExprType, Function, Program, Statement, Variable};
use crate::assembling::assembly::{
    instructions_view, ImmediateValue, ImmediateValueV, Instruction, InstructionV, Operand, OperandV,
    Register,
};
use crate::compiling::compile_expression::{
    compile_expression, emit, expr_compiles, expression_compiles, globals_of, label_operand,
    lemma_expr_compiles, lemma_expression_stack_effect, lemma_stack_delta_append,
    lemma_stack_delta_small, lit, reg, spec_compile_expression, spec_emitted, spec_stack_delta,
    spec_stack_effect, keeps_globals, is_global_key, spec_compile_local_variable, spec_compile_variable, lemma_vinsert_has, DataView, ExpressionResult,
};
use crate::linking::elf::SegmentType;
use crate::string_map::{entries_view, keys_unique, lemma_insert, lookup, lemma_insert_view, spec_insert, vhas_key, vinsert, StrMap};

verus! {

/// Struct containing the raw bytecode and data, still needs to be converted to elf/linked
pub struct CompilationResult {
    pub code: Vec<Instruction>,
    pub data: StrMap<Vec<u8>>,
}

/// The variables of the function being compiled
pub struct Environment {
    /// Local variables, map from variable name to offset relative to rbp
    pub local: StrMap<i32>,
}

/// An ASCII letter or digit.
pub open spec fn is_ascii_alphanumeric(c: char) -> bool {
    ('a' <= c && c <= 'z') || ('A' <= c && c <= 'Z') || ('0' <= c && c <= '9')
}

/// Twenty ASCII letters or digits.
pub open spec fn is_random_suffix(s: Seq<char>) -> bool {
    s.len() == 20 && forall|i: int| 0 <= i < s.len() ==> is_ascii_alphanumeric(#[trigger] s[i])
}

/// Create label for return section
fn format_return_label(function_name: &str) -> (r: String)
    ensures
        r@ == "return+"@ + function_name@,
{
    let mut label = String::from_str("return+");
    label.append(function_name);
    label
}

/// Create random label: `str` followed by 20 random letters and digits.
///
/// Calls `rand::rng` and `Alphanumeric::append_string` of the rand crate. The contract
/// claims what rand documents of `Alphanumeric`: every appended character is an ASCII
/// letter or digit, and `append_string` appends exactly the requested number of them.
/// Which characters they are is left unsaid: they are random.
#[verifier::external_body]
fn format_random_label(str: &str) -> (label: String)
    ensures
        label@.len() == str@.len() + 20,
        label@.take(str@.len() as int) == str@,
        is_random_suffix(label@.skip(str@.len() as int)),
{
    let mut label = str.to_string();
    let mut rng = rand::rng();
    Alphanumeric.append_string(&mut rng, &mut label, 20);
    label
}

/// Create label for variable section
pub fn format_variable_label(identifier: &str) -> (r: String)
    ensures
        r@ == "globalvar:"@ + identifier@,
{
    let mut label = String::from_str("globalvar:");
    label.append(identifier);
    label
}

/// How many random labels compiling the statement draws.
pub open spec fn spec_label_count(statement: Statement<ExprType>) -> nat
    decreases statement, 1int,
{
    match statement {
        Statement::If { condition: _, then_branch, else_branch } =>
            2 + spec_block_label_count(then_branch@) + spec_block_label_count(else_branch@),
        Statement::While { condition: _, body } => 2 + spec_block_label_count(body@),
        _ => 0,
    }
}

/// How many random labels compiling the statements draws.
pub open spec fn spec_block_label_count(block: Seq<Statement<ExprType>>) -> nat
    decreases block, 0int,
{
    if block.len() == 0 {
        0
    } else {
        spec_block_label_count(block.drop_last()) + spec_label_count(block.last())
    }
}

/// Code and data of a statement, given the random label suffixes it draws, in order;
/// `None` where compiling panics.
pub open spec fn spec_compile_statement(
    statement: Statement<ExprType>,
    function_name: Seq<char>,
    env: Seq<(String, i32)>,
    data: DataView,
    sfx: Seq<Seq<char>>,
) -> Option<(Seq<InstructionV>, DataView)>
    decreases statement, 1int,
{
    match statement {
        Statement::Declaration(_) => None,
        Statement::Expression(expression) => match spec_compile_expression(expression, env, data, ExpressionResult::Value) {
            Some((c, d)) => Some((c + seq![InstructionV::Add(reg(Register::RSP), lit(8))], d)),
            None => None,
        },
        Statement::If { condition, then_branch, else_branch } => {
            let nt = spec_block_label_count(then_branch@) as int;
            let ne = spec_block_label_count(else_branch@) as int;
            let begin_else = "begin_else+"@ + sfx[0];
            let end_else = "end_else+"@ + sfx[1 + nt];
            match spec_compile_expression(condition, env, data, ExpressionResult::Value) {
                Some((c0, d0)) => match spec_compile_block(then_branch@, function_name, env, d0, sfx.subrange(1, 1 + nt)) {
                    Some((c1, d1)) => match spec_compile_block(else_branch@, function_name, env, d1, sfx.subrange(2 + nt, 2 + nt + ne)) {
                        Some((c2, d2)) => Some((
                            c0 + seq![
                                InstructionV::Pop(reg(Register::R14)),
                                InstructionV::Cmp(reg(Register::R14), lit(0)),
                                InstructionV::JE(ImmediateValueV::Label(begin_else, SegmentType::Text)),
                            ] + c1 + seq![
                                InstructionV::Jmp(label_operand(end_else, SegmentType::Text)),
                                InstructionV::ILabel(begin_else),
                            ] + c2 + seq![InstructionV::ILabel(end_else)],
                            d2,
                        )),
                        None => None,
                    },
                    None => None,
                },
                None => None,
            }
        },
        Statement::While { condition, body } => {
            let nb = spec_block_label_count(body@) as int;
            let body_label = "while_body+"@ + sfx[0];
            let condition_label = "while_condition+"@ + sfx[1];
            match spec_compile_block(body@, function_name, env, data, sfx.subrange(2, 2 + nb)) {
                Some((c1, d1)) => match spec_compile_expression(condition, env, d1, ExpressionResult::Value) {
                    Some((c2, d2)) => Some((
                        seq![
                            InstructionV::Jmp(label_operand(condition_label, SegmentType::Text)),
                            InstructionV::ILabel(body_label),
                        ] + c1 + seq![InstructionV::ILabel(condition_label)] + c2 + seq![
                            InstructionV::Pop(reg(Register::R14)),
                            InstructionV::Cmp(reg(Register::R14), lit(0)),
                            InstructionV::JNE(ImmediateValueV::Label(body_label, SegmentType::Text)),
                        ],
                        d2,
                    )),
                    None => None,
                },
                None => None,
            }
        },
        Statement::Return(expression) => match spec_compile_expression(expression, env, data, ExpressionResult::Value) {
            Some((c, d)) => Some((
                c + seq![
                    InstructionV::Pop(reg(Register::RAX)),
                    InstructionV::Jmp(label_operand("return+"@ + function_name, SegmentType::Text)),
                ],
                d,
            )),
            None => None,
        },
    }
}

/// Code and data of statements, one after the other, each drawing its own suffixes.
pub open spec fn spec_compile_block(
    block: Seq<Statement<ExprType>>,
    function_name: Seq<char>,
    env: Seq<(String, i32)>,
    data: DataView,
    sfx: Seq<Seq<char>>,
) -> Option<(Seq<InstructionV>, DataView)>
    decreases block, 0int,
{
    if block.len() == 0 {
        Some((Seq::empty(), data))
    } else {
        let n = spec_block_label_count(block.drop_last()) as int;
        match spec_compile_block(block.drop_last(), function_name, env, data, sfx.take(n)) {
            Some((c1, d1)) => match spec_compile_statement(block.last(), function_name, env, d1, sfx.skip(n)) {
                Some((c2, d2)) => Some((c1 + c2, d2)),
                None => None,
            },
            None => None,
        }
    }
}

/// Whether a statement compiles, and what it makes of the data, does not depend on the
/// random labels it draws.
pub proof fn lemma_statement_suffixes(
    statement: Statement<ExprType>,
    function_name: Seq<char>,
    env: Seq<(String, i32)>,
    data: DataView,
    sfx1: Seq<Seq<char>>,
    sfx2: Seq<Seq<char>>,
)
    ensures
        (spec_compile_statement(statement, function_name, env, data, sfx1) is Some)
            == (spec_compile_statement(statement, function_name, env, data, sfx2) is Some),
        spec_compile_statement(statement, function_name, env, data, sfx1) is Some ==>
            spec_compile_statement(statement, function_name, env, data, sfx1).unwrap().1
                == spec_compile_statement(statement, function_name, env, data, sfx2).unwrap().1,
    decreases statement, 1int,
{
    match statement {
        Statement::If { condition, then_branch, else_branch } => {
            let nt = spec_block_label_count(then_branch@) as int;
            let ne = spec_block_label_count(else_branch@) as int;
            match spec_compile_expression(condition, env, data, ExpressionResult::Value) {
                Some((c0, d0)) => {
                    lemma_block_suffixes(then_branch@, function_name, env, d0, sfx1.subrange(1, 1 + nt), sfx2.subrange(1, 1 + nt));
                    match spec_compile_block(then_branch@, function_name, env, d0, sfx1.subrange(1, 1 + nt)) {
                        Some((c1, d1)) => {
                            lemma_block_suffixes(else_branch@, function_name, env, d1, sfx1.subrange(2 + nt, 2 + nt + ne), sfx2.subrange(2 + nt, 2 + nt + ne));
                        },
                        None => {},
                    }
                },
                None => {},
            }
        },
        Statement::While { condition, body } => {
            let nb = spec_block_label_count(body@) as int;
            lemma_block_suffixes(body@, function_name, env, data, sfx1.subrange(2, 2 + nb), sfx2.subrange(2, 2 + nb));
        },
        _ => {},
    }
}

/// Whether statements compile, and what they make of the data, does not depend on the
/// random labels they draw.
pub proof fn lemma_block_suffixes(
    block: Seq<Statement<ExprType>>,
    function_name: Seq<char>,
    env: Seq<(String, i32)>,
    data: DataView,
    sfx1: Seq<Seq<char>>,
    sfx2: Seq<Seq<char>>,
)
    ensures
        (spec_compile_block(block, function_name, env, data, sfx1) is Some)
            == (spec_compile_block(block, function_name, env, data, sfx2) is Some),
        spec_compile_block(block, function_name, env, data, sfx1) is Some ==>
            spec_compile_block(block, function_name, env, data, sfx1).unwrap().1
                == spec_compile_block(block, function_name, env, data, sfx2).unwrap().1,
    decreases block, 0int,
{
    if block.len() > 0 {
        let n = spec_block_label_count(block.drop_last()) as int;
        lemma_block_suffixes(block.drop_last(), function_name, env, data, sfx1.take(n), sfx2.take(n));
        match spec_compile_block(block.drop_last(), function_name, env, data, sfx1.take(n)) {
            Some((c1, d1)) => {
                lemma_statement_suffixes(block.last(), function_name, env, d1, sfx1.skip(n), sfx2.skip(n));
            },
            None => {},
        }
    }
}

/// If statements compile, so does each of their prefixes.
pub proof fn lemma_block_prefix(
    block: Seq<Statement<ExprType>>,
    k: int,
    function_name: Seq<char>,
    env: Seq<(String, i32)>,
    data: DataView,
    sfx1: Seq<Seq<char>>,
    sfx2: Seq<Seq<char>>,
)
    requires
        0 <= k <= block.len(),
        spec_compile_block(block, function_name, env, data, sfx1) is Some,
    ensures
        spec_compile_block(block.take(k), function_name, env, data, sfx2) is Some,
    decreases block.len(),
{
    if k == block.len() {
        assert(block.take(k) =~= block);
        lemma_block_suffixes(block, function_name, env, data, sfx1, sfx2);
    } else {
        let n = spec_block_label_count(block.drop_last()) as int;
        assert(block.drop_last().take(k) =~= block.take(k));
        lemma_block_prefix(block.drop_last(), k, function_name, env, data, sfx1.take(n), sfx2);
    }
}

/// Every suffix is twenty random letters or digits.
pub open spec fn all_random_suffixes(sfx: Seq<Seq<char>>) -> bool {
    forall|i: int| 0 <= i < sfx.len() ==> is_random_suffix(#[trigger] sfx[i])
}

/// Compile a statement
#[verifier::spinoff_prover]
fn compile_statement(
    statement: &Statement<ExprType>,
    current_function: &Function<ExprType>,
    output: &mut CompilationResult,
    env: &Environment,
) -> (drawn: Ghost<Seq<Seq<char>>>)
    requires
        old(output).data.wf(),
        env.local.wf(),
        spec_compile_statement(*statement, current_function.indentifier@, env.local.entries@, entries_view(old(output).data.entries@), Seq::empty()) is Some,
    ensures
        drawn@.len() == spec_label_count(*statement),
        all_random_suffixes(drawn@),
        spec_compile_statement(*statement, current_function.indentifier@, env.local.entries@, entries_view(old(output).data.entries@), drawn@) is Some,
        spec_emitted(*old(output), *final(output), spec_compile_statement(*statement, current_function.indentifier@, env.local.entries@, entries_view(old(output).data.entries@), drawn@).unwrap()),
    decreases statement, 2int,
{
    let ghost start = instructions_view(output.code@);
    let ghost d0 = entries_view(output.data.entries@);
    match statement {
        Statement::Declaration(_) => Ghost(Seq::empty()),
        Statement::Expression(expression) => {
            compile_expression(expression, output, env, ExpressionResult::Value);
            // Expression left result on the stack, pop this
            emit(output, Instruction::Add(Operand::Register(Register::RSP), Operand::Immediate(ImmediateValue::Literal(0x8))));
            assert(instructions_view(output.code@) =~= start + spec_compile_statement(*statement, current_function.indentifier@, env.local.entries@, d0, Seq::empty()).unwrap().0);
            Ghost(Seq::empty())
        },
        Statement::If { .. } => compile_if_statement(statement, current_function, output, env),
        Statement::While { .. } => compile_while_statement(statement, current_function, output, env),
        Statement::Return(expression) => {
            compile_expression(expression, output, env, ExpressionResult::Value);
            // Put expression result into RAX register
            emit(output, Instruction::Pop(Operand::Register(Register::RAX)));
            // Jump to return code of function
            let label = format_return_label(current_function.indentifier.as_str());
            emit(output, Instruction::Jmp(Operand::Immediate(ImmediateValue::Label(label, SegmentType::Text))));
            assert(instructions_view(output.code@) =~= start + spec_compile_statement(*statement, current_function.indentifier@, env.local.entries@, d0, Seq::empty()).unwrap().0);
            Ghost(Seq::empty())
        },
    }
}

#[verifier::spinoff_prover]
fn compile_if_statement(
    statement: &Statement<ExprType>,
    current_function: &Function<ExprType>,
    output: &mut CompilationResult,
    env: &Environment,
) -> (drawn: Ghost<Seq<Seq<char>>>)
    requires
        old(output).data.wf(),
        env.local.wf(),
        statement is If,
        spec_compile_statement(*statement, current_function.indentifier@, env.local.entries@, entries_view(old(output).data.entries@), Seq::empty()) is Some,
    ensures
        drawn@.len() == spec_label_count(*statement),
        all_random_suffixes(drawn@),
        spec_compile_statement(*statement, current_function.indentifier@, env.local.entries@, entries_view(old(output).data.entries@), drawn@) is Some,
        spec_emitted(*old(output), *final(output), spec_compile_statement(*statement, current_function.indentifier@, env.local.entries@, entries_view(old(output).data.entries@), drawn@).unwrap()),
    decreases statement, 1int,
{
    let (condition, then_branch, else_branch) = match statement {
        Statement::If { condition, then_branch, else_branch } => (condition, then_branch, else_branch),
        _ => {
            return Ghost(Seq::empty());
        },
    };
    let ghost fname = current_function.indentifier@;
    let ghost envs = env.local.entries@;
    let ghost start = instructions_view(output.code@);
    let ghost d0 = entries_view(output.data.entries@);
    let ghost nt = spec_block_label_count(then_branch@) as int;
    let ghost ne = spec_block_label_count(else_branch@) as int;
    let ghost e: Seq<Seq<char>> = Seq::empty();
    // Compile condition
    compile_expression(condition, output, env, ExpressionResult::Value);
    let ghost c0 = instructions_view(output.code@);
    let ghost dc = entries_view(output.data.entries@);
    let begin_else_label = format_random_label("begin_else+");
    let ghost begin_sfx = begin_else_label@.skip("begin_else+"@.len() as int);
    assert(begin_else_label@ =~= "begin_else+"@ + begin_sfx);
    // Put condition result into R14
    emit(output, Instruction::Pop(Operand::Register(Register::R14)));
    // Cmp to zero
    emit(output, Instruction::Cmp(Operand::Register(Register::R14), Operand::Immediate(ImmediateValue::Literal(0))));
    // Jump over then branch if condition is zero
    emit(output, Instruction::JE(ImmediateValue::Label(begin_else_label.clone(), SegmentType::Text)));
    let ghost c1 = instructions_view(output.code@);
    proof {
        lemma_block_suffixes(then_branch@, fname, envs, dc, e.subrange(1, 1 + nt), e);
    }
    // Compile then branch
    let then_drawn = compile_block(then_branch, current_function, output, env);
    let ghost c2 = instructions_view(output.code@);
    let ghost d1 = entries_view(output.data.entries@);
    let end_else_label = format_random_label("end_else+");
    let ghost end_sfx = end_else_label@.skip("end_else+"@.len() as int);
    assert(end_else_label@ =~= "end_else+"@ + end_sfx);
    // Jump over else branch
    emit(output, Instruction::Jmp(Operand::Immediate(ImmediateValue::Label(end_else_label.clone(), SegmentType::Text))));
    emit(output, Instruction::ILabel(begin_else_label));
    let ghost c3 = instructions_view(output.code@);
    proof {
        lemma_block_suffixes(then_branch@, fname, envs, dc, e.subrange(1, 1 + nt), then_drawn@);
        lemma_block_suffixes(else_branch@, fname, envs, d1, e.subrange(2 + nt, 2 + nt + ne), e);
    }
    // Compile else branch
    let else_drawn = compile_block(else_branch, current_function, output, env);
    emit(output, Instruction::ILabel(end_else_label));
    let ghost all = seq![begin_sfx] + then_drawn@ + seq![end_sfx] + else_drawn@;
    proof {
        assert(all.subrange(1, 1 + nt) =~= then_drawn@);
        assert(all.subrange(2 + nt, 2 + nt + ne) =~= else_drawn@);
        assert(all[0] == begin_sfx);
        assert(all[1 + nt] == end_sfx);
        assert forall|i: int| 0 <= i < all.len() implies is_random_suffix(#[trigger] all[i]) by {
            if i == 0 {
            } else if i < 1 + nt {
                assert(all[i] == then_drawn@[i - 1]);
            } else if i == 1 + nt {
            } else {
                assert(all[i] == else_drawn@[i - 2 - nt]);
            }
        }
        assert(instructions_view(output.code@) =~= start + spec_compile_statement(*statement, fname, envs, d0, all).unwrap().0);
    }
    Ghost(all)
}

#[verifier::spinoff_prover]
fn compile_while_statement(
    statement: &Statement<ExprType>,
    current_function: &Function<ExprType>,
    output: &mut CompilationResult,
    env: &Environment,
) -> (drawn: Ghost<Seq<Seq<char>>>)
    requires
        old(output).data.wf(),
        env.local.wf(),
        statement is While,
        spec_compile_statement(*statement, current_function.indentifier@, env.local.entries@, entries_view(old(output).data.entries@), Seq::empty()) is Some,
    ensures
        drawn@.len() == spec_label_count(*statement),
        all_random_suffixes(drawn@),
        spec_compile_statement(*statement, current_function.indentifier@, env.local.entries@, entries_view(old(output).data.entries@), drawn@) is Some,
        spec_emitted(*old(output), *final(output), spec_compile_statement(*statement, current_function.indentifier@, env.local.entries@, entries_view(old(output).data.entries@), drawn@).unwrap()),
    decreases statement, 1int,
{
    let (condition, body) = match statement {
        Statement::While { condition, body } => (condition, body),
        _ => {
            return Ghost(Seq::empty());
        },
    };
    let ghost fname = current_function.indentifier@;
    let ghost envs = env.local.entries@;
    let ghost start = instructions_view(output.code@);
    let ghost d0 = entries_view(output.data.entries@);
    let ghost nb = spec_block_label_count(body@) as int;
    let ghost e: Seq<Seq<char>> = Seq::empty();
    let body_label = format_random_label("while_body+");
    let condition_label = format_random_label("while_condition+");
    let ghost body_sfx = body_label@.skip("while_body+"@.len() as int);
    let ghost condition_sfx = condition_label@.skip("while_condition+"@.len() as int);
    assert(body_label@ =~= "while_body+"@ + body_sfx);
    assert(condition_label@ =~= "while_condition+"@ + condition_sfx);
    // Jump to condition
    emit(output, Instruction::Jmp(Operand::Immediate(ImmediateValue::Label(condition_label.clone(), SegmentType::Text))));
    emit(output, Instruction::ILabel(body_label.clone()));
    proof {
        lemma_block_suffixes(body@, fname, envs, d0, e.subrange(2, 2 + nb), e);
    }
    let body_drawn = compile_block(body, current_function, output, env);
    proof {
        lemma_block_suffixes(body@, fname, envs, d0, e.subrange(2, 2 + nb), body_drawn@);
    }
    emit(output, Instruction::ILabel(condition_label));
    compile_expression(condition, output, env, ExpressionResult::Value);
    // Put condition result into R14
    emit(output, Instruction::Pop(Operand::Register(Register::R14)));
    // Cmp to zero
    emit(output, Instruction::Cmp(Operand::Register(Register::R14), Operand::Immediate(ImmediateValue::Literal(0))));
    // Jump to body if condition is not zero
    emit(output, Instruction::JNE(ImmediateValue::Label(body_label, SegmentType::Text)));
    let ghost all = seq![body_sfx, condition_sfx] + body_drawn@;
    proof {
        assert(all.subrange(2, 2 + nb) =~= body_drawn@);
        assert forall|i: int| 0 <= i < all.len() implies is_random_suffix(#[trigger] all[i]) by {
            if i >= 2 {
                assert(all[i] == body_drawn@[i - 2]);
            }
        }
        assert(instructions_view(output.code@) =~= start + spec_compile_statement(*statement, fname, envs, d0, all).unwrap().0);
    }
    Ghost(all)
}

#[verifier::spinoff_prover]
fn compile_block(
    statements: &Vec<Statement<ExprType>>,
    current_function: &Function<ExprType>,
    output: &mut CompilationResult,
    env: &Environment,
) -> (drawn: Ghost<Seq<Seq<char>>>)
    requires
        old(output).data.wf(),
        env.local.wf(),
        spec_compile_block(statements@, current_function.indentifier@, env.local.entries@, entries_view(old(output).data.entries@), Seq::empty()) is Some,
    ensures
        drawn@.len() == spec_block_label_count(statements@),
        all_random_suffixes(drawn@),
        spec_compile_block(statements@, current_function.indentifier@, env.local.entries@, entries_view(old(output).data.entries@), drawn@) is Some,
        spec_emitted(*old(output), *final(output), spec_compile_block(statements@, current_function.indentifier@, env.local.entries@, entries_view(old(output).data.entries@), drawn@).unwrap()),
    decreases statements, 0int,
{
    let ghost b = statements@;
    let ghost fname = current_function.indentifier@;
    let ghost envs = env.local.entries@;
    let ghost start = instructions_view(output.code@);
    let ghost d0 = entries_view(output.data.entries@);
    let ghost mut drawn: Seq<Seq<char>> = Seq::empty();
    let mut i: usize = 0;
    assert(b.take(0) =~= Seq::<Statement<ExprType>>::empty());
    while i < statements.len()
        invariant
            b == statements@,
            i <= b.len(),
            fname == current_function.indentifier@,
            envs == env.local.entries@,
            env.local.wf(),
            output.data.wf(),
            spec_compile_block(b, fname, envs, d0, Seq::empty()) is Some,
            drawn.len() == spec_block_label_count(b.take(i as int)),
            all_random_suffixes(drawn),
            spec_compile_block(b.take(i as int), fname, envs, d0, drawn) is Some,
            instructions_view(output.code@) == start + spec_compile_block(b.take(i as int), fname, envs, d0, drawn).unwrap().0,
            entries_view(output.data.entries@) == spec_compile_block(b.take(i as int), fname, envs, d0, drawn).unwrap().1,
        decreases b.len() - i,
    {
        let ghost di = entries_view(output.data.entries@);
        let ghost ci = instructions_view(output.code@);
        proof {
            let t = b.take(i + 1);
            assert(t.drop_last() =~= b.take(i as int));
            assert(t.last() == b[i as int]);
            lemma_block_prefix(b, i + 1, fname, envs, d0, Seq::empty(), drawn);
            assert(drawn.take(drawn.len() as int) =~= drawn);
            lemma_statement_suffixes(b[i as int], fname, envs, di, drawn.skip(drawn.len() as int), Seq::empty());
        }
        let d = compile_statement(&statements[i], current_function, output, env);
        proof {
            let t = b.take(i + 1);
            let nd = drawn + d@;
            assert(t.drop_last() =~= b.take(i as int));
            assert(nd.take(drawn.len() as int) =~= drawn);
            assert(nd.skip(drawn.len() as int) =~= d@);
            assert forall|j: int| 0 <= j < nd.len() implies is_random_suffix(#[trigger] nd[j]) by {
                if j < drawn.len() {
                    assert(nd[j] == drawn[j]);
                } else {
                    assert(nd[j] == d@[j - drawn.len()]);
                }
            }
            assert(instructions_view(output.code@) =~= start + spec_compile_block(t, fname, envs, d0, nd).unwrap().0);
            drawn = nd;
        }
        i = i + 1;
    }
    assert(b.take(b.len() as int) =~= b);
    Ghost(drawn)
}

/// The local variables of a function: its arguments from `k` on, each at its offset from
/// RBP; the last argument lies just above the return address, at 16.
pub open spec fn spec_arguments_env(arguments: Seq<Variable>, k: int) -> Seq<(String, i32)>
    decreases arguments.len() - k,
{
    if k < 0 || k >= arguments.len() {
        Seq::empty()
    } else {
        spec_insert(
            spec_arguments_env(arguments, k + 1),
            arguments[k].identifier,
            (16 + 8 * (arguments.len() - 1 - k)) as i32,
        )
    }
}

pub proof fn lemma_arguments_env_wf(arguments: Seq<Variable>, k: int)
    ensures
        keys_unique(spec_arguments_env(arguments, k)),
    decreases arguments.len() - k,
{
    if 0 <= k < arguments.len() {
        lemma_arguments_env_wf(arguments, k + 1);
        lemma_insert(spec_arguments_env(arguments, k + 1), arguments[k].identifier, (16 + 8 * (arguments.len() - 1 - k)) as i32);
    }
}

/// Code and data of a function: its label, the frame set up, the body, the return
/// label and the frame torn down; `None` where compiling panics.
pub open spec fn spec_compile_function(function: Function<ExprType>, data: DataView, sfx: Seq<Seq<char>>) -> Option<(Seq<InstructionV>, DataView)> {
    if 16 + 8 * function.arguments@.len() > i32::MAX {
        None
    } else {
        let name = function.indentifier@;
        match spec_compile_block(function.body@, name, spec_arguments_env(function.arguments@, 0), data, sfx) {
            Some((c, d)) => Some((
                seq![
                    InstructionV::ILabel(name),
                    InstructionV::Push(reg(Register::RBP)),
                    InstructionV::Mov(reg(Register::RBP), reg(Register::RSP)),
                ] + c + seq![
                    InstructionV::ILabel("return+"@ + name),
                    InstructionV::Leave,
                    InstructionV::Ret,
                ],
                d,
            )),
            None => None,
        }
    }
}

/// The data of the global variables: eight zero bytes for each, under its label.
pub open spec fn spec_globals_data(variables: Seq<Variable>, data: DataView) -> DataView
    decreases variables.len(),
{
    if variables.len() == 0 {
        data
    } else {
        vinsert(
            spec_globals_data(variables.drop_last(), data),
            "globalvar:"@ + variables.last().identifier@,
            Seq::new(8, |i: int| 0u8),
        )
    }
}

/// Code and data of the functions, one after the other.
pub open spec fn spec_compile_functions(functions: Seq<Function<ExprType>>, data: DataView, sfx: Seq<Seq<char>>) -> Option<(Seq<InstructionV>, DataView)>
    decreases functions.len(),
{
    if functions.len() == 0 {
        Some((Seq::empty(), data))
    } else {
        let n = spec_functions_label_count(functions.drop_last()) as int;
        match spec_compile_functions(functions.drop_last(), data, sfx.take(n)) {
            Some((c1, d1)) => match spec_compile_function(functions.last(), d1, sfx.skip(n)) {
                Some((c2, d2)) => Some((c1 + c2, d2)),
                None => None,
            },
            None => None,
        }
    }
}

pub open spec fn spec_functions_label_count(functions: Seq<Function<ExprType>>) -> nat
    decreases functions.len(),
{
    if functions.len() == 0 {
        0
    } else {
        spec_functions_label_count(functions.drop_last()) + spec_block_label_count(functions.last().body@)
    }
}

/// The code that starts the program: call main, and exit with its result.
pub open spec fn spec_program_start() -> Seq<InstructionV> {
    seq![
        InstructionV::Call(label_operand("main"@, SegmentType::Text)),
        InstructionV::Mov(reg(Register::RDI), reg(Register::RAX)),
        InstructionV::Mov(reg(Register::RAX), lit(0x3c)),
        InstructionV::Syscall,
    ]
}

/// Code and data of a program, given the random label suffixes it draws;
/// `None` where compiling panics.
pub open spec fn spec_compile_program(program: Program<ExprType>, sfx: Seq<Seq<char>>) -> Option<(Seq<InstructionV>, DataView)> {
    match spec_compile_functions(program.functions@, spec_globals_data(program.variables@, Seq::empty()), sfx) {
        Some((c, d)) => Some((spec_program_start() + c, d)),
        None => None,
    }
}

pub proof fn lemma_functions_suffixes(functions: Seq<Function<ExprType>>, data: DataView, sfx1: Seq<Seq<char>>, sfx2: Seq<Seq<char>>)
    ensures
        (spec_compile_functions(functions, data, sfx1) is Some) == (spec_compile_functions(functions, data, sfx2) is Some),
        spec_compile_functions(functions, data, sfx1) is Some ==>
            spec_compile_functions(functions, data, sfx1).unwrap().1 == spec_compile_functions(functions, data, sfx2).unwrap().1,
    decreases functions.len(),
{
    if functions.len() > 0 {
        let n = spec_functions_label_count(functions.drop_last()) as int;
        lemma_functions_suffixes(functions.drop_last(), data, sfx1.take(n), sfx2.take(n));
        match spec_compile_functions(functions.drop_last(), data, sfx1.take(n)) {
            Some((c1, d1)) => {
                let f = functions.last();
                lemma_block_suffixes(f.body@, f.indentifier@, spec_arguments_env(f.arguments@, 0), d1, sfx1.skip(n), sfx2.skip(n));
            },
            None => {},
        }
    }
}

pub proof fn lemma_functions_prefix(functions: Seq<Function<ExprType>>, k: int, data: DataView, sfx1: Seq<Seq<char>>, sfx2: Seq<Seq<char>>)
    requires
        0 <= k <= functions.len(),
        spec_compile_functions(functions, data, sfx1) is Some,
    ensures
        spec_compile_functions(functions.take(k), data, sfx2) is Some,
    decreases functions.len(),
{
    if k == functions.len() {
        assert(functions.take(k) =~= functions);
        lemma_functions_suffixes(functions, data, sfx1, sfx2);
    } else {
        let n = spec_functions_label_count(functions.drop_last()) as int;
        assert(functions.drop_last().take(k) =~= functions.take(k));
        lemma_functions_prefix(functions.drop_last(), k, data, sfx1.take(n), sfx2);
    }
}

/// Compile a global variable declaration
#[verifier::spinoff_prover]
fn compile_variable(variable: &Variable, output: &mut CompilationResult)
    requires
        old(output).data.wf(),
    ensures
        final(output).data.wf(),
        final(output).code@ == old(output).code@,
        entries_view(final(output).data.entries@) == vinsert(
            entries_view(old(output).data.entries@),
            "globalvar:"@ + variable.identifier@,
            Seq::new(8, |i: int| 0u8),
        ),
{
    let label = format_variable_label(variable.identifier.as_str());
    let zeros: Vec<u8> = vec![0u8; 8];
    assert(zeros@ =~= Seq::new(8, |i: int| 0u8));
    proof {
        lemma_insert(output.data.entries@, label, zeros);
        lemma_insert_view(output.data.entries@, label, zeros);
    }
    output.data.insert(label, zeros);
}

/// The environment of a function's body: each argument at its offset from RBP, the last
/// argument nearest
fn arguments_environment(arguments: &Vec<Variable>) -> (env: Environment)
    requires
        16 + 8 * arguments@.len() <= i32::MAX,
    ensures
        env.local.wf(),
        env.local.entries@ == spec_arguments_env(arguments@, 0),
{
    let ghost args = arguments@;
    let mut env = Environment { local: StrMap::new() };
    //rbp=previous saved rbp
    //rbp+8=return adress
    //rbp+16=last func arg
    //rbp+24=second to last func arg
    let mut offset: i32 = 16;
    let mut k: usize = arguments.len();
    assert(env.local.entries@ =~= spec_arguments_env(args, k as int));
    while k > 0
        invariant
            k <= args.len(),
            args == arguments@,
            16 + 8 * args.len() <= i32::MAX,
            offset == 16 + 8 * (args.len() - k),
            env.local.entries@ == spec_arguments_env(args, k as int),
            env.local.wf(),
        decreases k,
    {
        k = k - 1;
        let identifier = arguments[k].identifier.clone();
        proof {
            lemma_insert(env.local.entries@, identifier, offset);
        }
        env.local.insert(identifier, offset);
        offset = offset + 8;
    }
    env
}

/// Compile a function definition
#[verifier::spinoff_prover]
fn compile_function(function: &Function<ExprType>, output: &mut CompilationResult) -> (drawn: Ghost<Seq<Seq<char>>>)
    requires
        old(output).data.wf(),
        spec_compile_function(*function, entries_view(old(output).data.entries@), Seq::empty()) is Some,
    ensures
        drawn@.len() == spec_block_label_count(function.body@),
        all_random_suffixes(drawn@),
        spec_compile_function(*function, entries_view(old(output).data.entries@), drawn@) is Some,
        spec_emitted(*old(output), *final(output), spec_compile_function(*function, entries_view(old(output).data.entries@), drawn@).unwrap()),
{
    let ghost start = instructions_view(output.code@);
    let ghost d0 = entries_view(output.data.entries@);
    let env = arguments_environment(&function.arguments);
    emit(output, Instruction::ILabel(function.indentifier.clone()));
    emit(output, Instruction::Push(Operand::Register(Register::RBP)));
    emit(output, Instruction::Mov(Operand::Register(Register::RBP), Operand::Register(Register::RSP)));
    let drawn = compile_block(&function.body, function, output, &env);
    emit(output, Instruction::ILabel(format_return_label(function.indentifier.as_str())));
    emit(output, Instruction::Leave);
    emit(output, Instruction::Ret);
    assert(instructions_view(output.code@) =~= start + spec_compile_function(*function, d0, drawn@).unwrap().0);
    drawn
}

/// Compiles the program
/// Outputs code for every variable and function, and code that calls the main function
#[verifier::spinoff_prover]
fn compile_program(program: &Program<ExprType>, output: &mut CompilationResult) -> (drawn: Ghost<Seq<Seq<char>>>)
    requires
        old(output).data.wf(),
        old(output).code@.len() == 0,
        old(output).data.entries@.len() == 0,
        spec_compile_program(*program, Seq::empty()) is Some,
    ensures
        all_random_suffixes(drawn@),
        spec_compile_program(*program, drawn@) is Some,
        final(output).data.wf(),
        instructions_view(final(output).code@) == spec_compile_program(*program, drawn@).unwrap().0,
        entries_view(final(output).data.entries@) == spec_compile_program(*program, drawn@).unwrap().1,
{
    // Call the main function
    emit(output, Instruction::Call(Operand::Immediate(ImmediateValue::Label(String::from_str("main"), SegmentType::Text))));
    // Move return value of main into exit code argument
    emit(output, Instruction::Mov(Operand::Register(Register::RDI), Operand::Register(Register::RAX)));
    // sys_exit system call
    emit(output, Instruction::Mov(Operand::Register(Register::RAX), Operand::Immediate(ImmediateValue::Literal(0x3c))));
    emit(output, Instruction::Syscall);
    let ghost start = instructions_view(output.code@);
    assert(start =~= spec_program_start());
    assert(entries_view(output.data.entries@) =~= Seq::empty());

    let ghost vars = program.variables@;
    let mut i: usize = 0;
    assert(vars.take(0) =~= Seq::<Variable>::empty());
    while i < program.variables.len()
        invariant
            vars == program.variables@,
            i <= vars.len(),
            output.data.wf(),
            instructions_view(output.code@) == start,
            entries_view(output.data.entries@) == spec_globals_data(vars.take(i as int), Seq::empty()),
        decreases vars.len() - i,
    {
        let ghost code_before = output.code@;
        compile_variable(&program.variables[i], output);
        assert(vars.take(i + 1).drop_last() =~= vars.take(i as int));
        i = i + 1;
    }
    assert(vars.take(vars.len() as int) =~= vars);

    let ghost fs = program.functions@;
    let ghost dg = entries_view(output.data.entries@);
    let ghost mut drawn: Seq<Seq<char>> = Seq::empty();
    let mut j: usize = 0;
    assert(fs.take(0) =~= Seq::<Function<ExprType>>::empty());
    while j < program.functions.len()
        invariant
            fs == program.functions@,
            j <= fs.len(),
            output.data.wf(),
            spec_compile_functions(fs, dg, Seq::empty()) is Some,
            drawn.len() == spec_functions_label_count(fs.take(j as int)),
            all_random_suffixes(drawn),
            spec_compile_functions(fs.take(j as int), dg, drawn) is Some,
            instructions_view(output.code@) == start + spec_compile_functions(fs.take(j as int), dg, drawn).unwrap().0,
            entries_view(output.data.entries@) == spec_compile_functions(fs.take(j as int), dg, drawn).unwrap().1,
        decreases fs.len() - j,
    {
        let ghost dj = entries_view(output.data.entries@);
        proof {
            let t = fs.take(j + 1);
            assert(t.drop_last() =~= fs.take(j as int));
            assert(t.last() == fs[j as int]);
            lemma_functions_prefix(fs, j + 1, dg, Seq::empty(), drawn);
            assert(drawn.take(drawn.len() as int) =~= drawn);
            let f = fs[j as int];
            lemma_block_suffixes(f.body@, f.indentifier@, spec_arguments_env(f.arguments@, 0), dj, drawn.skip(drawn.len() as int), Seq::empty());
        }
        let d = compile_function(&program.functions[j], output);
        proof {
            let t = fs.take(j + 1);
            let nd = drawn + d@;
            assert(t.drop_last() =~= fs.take(j as int));
            assert(nd.take(drawn.len() as int) =~= drawn);
            assert(nd.skip(drawn.len() as int) =~= d@);
            assert forall|x: int| 0 <= x < nd.len() implies is_random_suffix(#[trigger] nd[x]) by {
                if x < drawn.len() {
                    assert(nd[x] == drawn[x]);
                } else {
                    assert(nd[x] == d@[x - drawn.len()]);
                }
            }
            assert(instructions_view(output.code@) =~= start + spec_compile_functions(t, dg, nd).unwrap().0);
            drawn = nd;
        }
        j = j + 1;
    }
    assert(fs.take(fs.len() as int) =~= fs);
    Ghost(drawn)
}

/// Generates bytecode section, and string section from AST
pub fn compile(program: Program<ExprType>) -> (r: CompilationResult)
    requires
        spec_compile_program(program, Seq::empty()) is Some,
    ensures
        r.data.wf(),
        exists|sfx: Seq<Seq<char>>| #![trigger spec_compile_program(program, sfx)]
            all_random_suffixes(sfx) && spec_compile_program(program, sfx) == Some((instructions_view(r.code@), entries_view(r.data.entries@))),
{
    let mut output = CompilationResult { code: Vec::new(), data: StrMap::new() };
    let drawn = compile_program(&program, &mut output);
    assert(spec_compile_program(program, drawn@) == Some((instructions_view(output.code@), entries_view(output.data.entries@))));
    output
}

/// Compiled code of a statement leaves the stack as it found it.
#[verifier::spinoff_prover]
pub proof fn lemma_statement_stack_effect(
    statement: Statement<ExprType>,
    function_name: Seq<char>,
    env: Seq<(String, i32)>,
    data: DataView,
    sfx: Seq<Seq<char>>,
)
    requires
        spec_compile_statement(statement, function_name, env, data, sfx) is Some,
    ensures
        spec_stack_delta(spec_compile_statement(statement, function_name, env, data, sfx).unwrap().0) == 0,
    decreases statement, 1int,
{
    let c = spec_compile_statement(statement, function_name, env, data, sfx).unwrap().0;
    match statement {
        Statement::Expression(expression) => {
            let c0 = spec_compile_expression(expression, env, data, ExpressionResult::Value).unwrap().0;
            lemma_expression_stack_effect(expression, env, data, ExpressionResult::Value);
            let tail = seq![InstructionV::Add(reg(Register::RSP), lit(8))];
            lemma_stack_delta_small(tail);
            lemma_stack_delta_append(c0, tail);
        },
        Statement::Return(expression) => {
            let c0 = spec_compile_expression(expression, env, data, ExpressionResult::Value).unwrap().0;
            lemma_expression_stack_effect(expression, env, data, ExpressionResult::Value);
            let tail = seq![
                InstructionV::Pop(reg(Register::RAX)),
                InstructionV::Jmp(label_operand("return+"@ + function_name, SegmentType::Text)),
            ];
            lemma_stack_delta_small(tail);
            lemma_stack_delta_append(c0, tail);
        },
        Statement::If { condition, then_branch, else_branch } => {
            let nt = spec_block_label_count(then_branch@) as int;
            let ne = spec_block_label_count(else_branch@) as int;
            let begin_else = "begin_else+"@ + sfx[0];
            let end_else = "end_else+"@ + sfx[1 + nt];
            let (c0, d0) = spec_compile_expression(condition, env, data, ExpressionResult::Value).unwrap();
            let (c1, d1) = spec_compile_block(then_branch@, function_name, env, d0, sfx.subrange(1, 1 + nt)).unwrap();
            let (c2, d2) = spec_compile_block(else_branch@, function_name, env, d1, sfx.subrange(2 + nt, 2 + nt + ne)).unwrap();
            lemma_expression_stack_effect(condition, env, data, ExpressionResult::Value);
            lemma_block_stack_effect(then_branch@, function_name, env, d0, sfx.subrange(1, 1 + nt));
            lemma_block_stack_effect(else_branch@, function_name, env, d1, sfx.subrange(2 + nt, 2 + nt + ne));
            let t1 = seq![
                InstructionV::Pop(reg(Register::R14)),
                InstructionV::Cmp(reg(Register::R14), lit(0)),
                InstructionV::JE(ImmediateValueV::Label(begin_else, SegmentType::Text)),
            ];
            let t2 = seq![
                InstructionV::Jmp(label_operand(end_else, SegmentType::Text)),
                InstructionV::ILabel(begin_else),
            ];
            let t3 = seq![InstructionV::ILabel(end_else)];
            lemma_stack_delta_small(t1);
            lemma_stack_delta_small(t2);
            lemma_stack_delta_small(t3);
            lemma_stack_delta_append(c0, t1);
            lemma_stack_delta_append(c0 + t1, c1);
            lemma_stack_delta_append(c0 + t1 + c1, t2);
            lemma_stack_delta_append(c0 + t1 + c1 + t2, c2);
            lemma_stack_delta_append(c0 + t1 + c1 + t2 + c2, t3);
        },
        Statement::While { condition, body } => {
            let nb = spec_block_label_count(body@) as int;
            let body_label = "while_body+"@ + sfx[0];
            let condition_label = "while_condition+"@ + sfx[1];
            let (c1, d1) = spec_compile_block(body@, function_name, env, data, sfx.subrange(2, 2 + nb)).unwrap();
            let (c2, d2) = spec_compile_expression(condition, env, d1, ExpressionResult::Value).unwrap();
            lemma_block_stack_effect(body@, function_name, env, data, sfx.subrange(2, 2 + nb));
            lemma_expression_stack_effect(condition, env, d1, ExpressionResult::Value);
            let t1 = seq![
                InstructionV::Jmp(label_operand(condition_label, SegmentType::Text)),
                InstructionV::ILabel(body_label),
            ];
            let t2 = seq![InstructionV::ILabel(condition_label)];
            let t3 = seq![
                InstructionV::Pop(reg(Register::R14)),
                InstructionV::Cmp(reg(Register::R14), lit(0)),
                InstructionV::JNE(ImmediateValueV::Label(body_label, SegmentType::Text)),
            ];
            lemma_stack_delta_small(t1);
            lemma_stack_delta_small(t2);
            lemma_stack_delta_small(t3);
            lemma_stack_delta_append(t1, c1);
            lemma_stack_delta_append(t1 + c1, t2);
            lemma_stack_delta_append(t1 + c1 + t2, c2);
            lemma_stack_delta_append(t1 + c1 + t2 + c2, t3);
        },
        Statement::Declaration(_) => {},
    }
}

/// Compiled code of statements leaves the stack as it found it.
#[verifier::spinoff_prover]
pub proof fn lemma_block_stack_effect(
    block: Seq<Statement<ExprType>>,
    function_name: Seq<char>,
    env: Seq<(String, i32)>,
    data: DataView,
    sfx: Seq<Seq<char>>,
)
    requires
        spec_compile_block(block, function_name, env, data, sfx) is Some,
    ensures
        spec_stack_delta(spec_compile_block(block, function_name, env, data, sfx).unwrap().0) == 0,
    decreases block, 0int,
{
    if block.len() == 0 {
        assert(spec_compile_block(block, function_name, env, data, sfx).unwrap().0 =~= Seq::<InstructionV>::empty());
    } else {
        let n = spec_block_label_count(block.drop_last()) as int;
        let (c1, d1) = spec_compile_block(block.drop_last(), function_name, env, data, sfx.take(n)).unwrap();
        let (c2, d2) = spec_compile_statement(block.last(), function_name, env, d1, sfx.skip(n)).unwrap();
        lemma_block_stack_effect(block.drop_last(), function_name, env, data, sfx.take(n));
        lemma_statement_stack_effect(block.last(), function_name, env, d1, sfx.skip(n));
        lemma_stack_delta_append(c1, c2);
    }
}

/// No two arguments share an identifier.
pub open spec fn distinct_identifiers(arguments: Seq<Variable>) -> bool {
    forall|i: int, j: int|
        0 <= i < arguments.len() && 0 <= j < arguments.len() && i != j ==> #[trigger] arguments[i].identifier@
            != #[trigger] arguments[j].identifier@
}

/// Where the arguments from the `k`-th on are found: each at its offset from the frame
/// pointer, the last one at 16.
proof fn lemma_arguments_env_lookup(arguments: Seq<Variable>, k: int)
    requires
        0 <= k <= arguments.len(),
        distinct_identifiers(arguments),
    ensures
        forall|i: int| k <= i < arguments.len() ==> lookup(spec_arguments_env(arguments, k), #[trigger] arguments[i].identifier@)
            == Some((16 + 8 * (arguments.len() - 1 - i)) as i32),
    decreases arguments.len() - k,
{
    if k < arguments.len() {
        lemma_arguments_env_lookup(arguments, k + 1);
        lemma_arguments_env_wf(arguments, k + 1);
        lemma_insert(spec_arguments_env(arguments, k + 1), arguments[k].identifier, (16 + 8 * (arguments.len() - 1 - k)) as i32);
        assert forall|i: int| k <= i < arguments.len() implies lookup(spec_arguments_env(arguments, k), #[trigger] arguments[i].identifier@)
            == Some((16 + 8 * (arguments.len() - 1 - i)) as i32) by {
            if i > k {
                assert(arguments[i].identifier@ != arguments[k].identifier@);
            }
        }
    }
}

/// The code of a compiled function: its label, the frame pointer pushed and set, the
/// body, the return label and the frame torn down. In the body the `i`-th of `n`
/// arguments is read at `16 + 8 * (n - 1 - i)` from the frame pointer (the caller
/// pushes the first argument first), as long as no two arguments share a name.
pub proof fn lemma_function_frame(function: Function<ExprType>, data: DataView, sfx: Seq<Seq<char>>)
    requires
        spec_compile_function(function, data, sfx) is Some,
    ensures
        ({
            let name = function.indentifier@;
            let env = spec_arguments_env(function.arguments@, 0);
            let n = function.arguments@.len();
            &&& spec_compile_function(function, data, sfx).unwrap().0 == seq![
                InstructionV::ILabel(name),
                InstructionV::Push(reg(Register::RBP)),
                InstructionV::Mov(reg(Register::RBP), reg(Register::RSP)),
            ] + spec_compile_block(function.body@, name, env, data, sfx).unwrap().0 + seq![
                InstructionV::ILabel("return+"@ + name),
                InstructionV::Leave,
                InstructionV::Ret,
            ]
            &&& distinct_identifiers(function.arguments@) ==> forall|i: int, d: DataView, r: ExpressionResult|
                0 <= i < n ==> #[trigger] spec_compile_variable(function.arguments@[i].identifier@, env, d, r)
                    == Some(spec_compile_local_variable((16 + 8 * (n - 1 - i)) as i32, r))
        }),
{
    if distinct_identifiers(function.arguments@) {
        lemma_arguments_env_lookup(function.arguments@, 0);
    }
}

/// Compiled code of a function pushes the frame pointer, and leave takes it off again:
/// the function leaves the stack as it found it.
pub proof fn lemma_function_stack_effect(function: Function<ExprType>, data: DataView, sfx: Seq<Seq<char>>)
    requires
        spec_compile_function(function, data, sfx) is Some,
    ensures
        spec_stack_delta(spec_compile_function(function, data, sfx).unwrap().0) == 0,
{
    let name = function.indentifier@;
    let env = spec_arguments_env(function.arguments@, 0);
    let (c, d) = spec_compile_block(function.body@, name, env, data, sfx).unwrap();
    lemma_block_stack_effect(function.body@, name, env, data, sfx);
    let head = seq![
        InstructionV::ILabel(name),
        InstructionV::Push(reg(Register::RBP)),
        InstructionV::Mov(reg(Register::RBP), reg(Register::RSP)),
    ];
    let tail = seq![InstructionV::ILabel("return+"@ + name), InstructionV::Leave, InstructionV::Ret];
    lemma_stack_delta_small(head);
    lemma_stack_delta_small(tail);
    lemma_stack_delta_append(head, c);
    lemma_stack_delta_append(head + c, tail);
}

/// Whether a statement compiles: a declaration does not (its compilation is not written),
/// every other statement when its expressions and blocks do.
pub open spec fn statement_compiles(statement: Statement<ExprType>, env: Seq<(String, i32)>, globals: Set<Seq<char>>) -> bool
    decreases statement, 1int,
{
    match statement {
        Statement::Declaration(_) => false,
        Statement::Expression(e) => expr_compiles(e, env, globals, ExpressionResult::Value),
        Statement::If { condition, then_branch, else_branch } => expr_compiles(condition, env, globals, ExpressionResult::Value)
            && block_compiles(then_branch@, env, globals) && block_compiles(else_branch@, env, globals),
        Statement::While { condition, body } => block_compiles(body@, env, globals) && expr_compiles(
            condition,
            env,
            globals,
            ExpressionResult::Value,
        ),
        Statement::Return(e) => expr_compiles(e, env, globals, ExpressionResult::Value),
    }
}

/// Whether all statements of a block compile.
pub open spec fn block_compiles(block: Seq<Statement<ExprType>>, env: Seq<(String, i32)>, globals: Set<Seq<char>>) -> bool
    decreases block, 0int,
{
    if block.len() == 0 {
        true
    } else {
        block_compiles(block.drop_last(), env, globals) && statement_compiles(block.last(), env, globals)
    }
}

/// Whether a function compiles: its arguments' offsets fit, and its body compiles with
/// its arguments in scope.
pub open spec fn function_compiles(function: Function<ExprType>, globals: Set<Seq<char>>) -> bool {
    16 + 8 * function.arguments@.len() <= i32::MAX && block_compiles(
        function.body@,
        spec_arguments_env(function.arguments@, 0),
        globals,
    )
}

/// Whether all functions compile.
pub open spec fn functions_compile(functions: Seq<Function<ExprType>>, globals: Set<Seq<char>>) -> bool
    decreases functions.len(),
{
    if functions.len() == 0 {
        true
    } else {
        functions_compile(functions.drop_last(), globals) && function_compiles(functions.last(), globals)
    }
}

/// Whether a program compiles, with its global variables in scope.
pub open spec fn program_compiles(program: Program<ExprType>) -> bool {
    functions_compile(program.functions@, globals_of(spec_globals_data(program.variables@, Seq::empty())))
}

pub proof fn lemma_statement_compiles(
    statement: Statement<ExprType>,
    function_name: Seq<char>,
    env: Seq<(String, i32)>,
    data: DataView,
    sfx: Seq<Seq<char>>,
)
    ensures
        (spec_compile_statement(statement, function_name, env, data, sfx) is Some) == statement_compiles(
            statement,
            env,
            globals_of(data),
        ),
        spec_compile_statement(statement, function_name, env, data, sfx) is Some ==> globals_of(
            spec_compile_statement(statement, function_name, env, data, sfx).unwrap().1,
        ) == globals_of(data),
        spec_compile_statement(statement, function_name, env, data, sfx) is Some ==> keeps_globals(data, spec_compile_statement(statement, function_name, env, data, sfx).unwrap().1),
    decreases statement, 1int,
{
    match statement {
        Statement::Declaration(_) => {},
        Statement::Expression(e) => {
            lemma_expr_compiles(e, env, data, ExpressionResult::Value);
        },
        Statement::If { condition, then_branch, else_branch } => {
            let nt = spec_block_label_count(then_branch@) as int;
            let ne = spec_block_label_count(else_branch@) as int;
            lemma_expr_compiles(condition, env, data, ExpressionResult::Value);
            match spec_compile_expression(condition, env, data, ExpressionResult::Value) {
                Some((c0, d0)) => {
                    lemma_block_compiles(then_branch@, function_name, env, d0, sfx.subrange(1, 1 + nt));
                    match spec_compile_block(then_branch@, function_name, env, d0, sfx.subrange(1, 1 + nt)) {
                        Some((c1, d1)) => {
                            lemma_block_compiles(else_branch@, function_name, env, d1, sfx.subrange(2 + nt, 2 + nt + ne));
                        },
                        None => {},
                    }
                },
                None => {},
            }
        },
        Statement::While { condition, body } => {
            let nb = spec_block_label_count(body@) as int;
            lemma_block_compiles(body@, function_name, env, data, sfx.subrange(2, 2 + nb));
            match spec_compile_block(body@, function_name, env, data, sfx.subrange(2, 2 + nb)) {
                Some((c1, d1)) => {
                    lemma_expr_compiles(condition, env, d1, ExpressionResult::Value);
                },
                None => {},
            }
        },
        Statement::Return(e) => {
            lemma_expr_compiles(e, env, data, ExpressionResult::Value);
        },
    }
}

pub proof fn lemma_block_compiles(
    block: Seq<Statement<ExprType>>,
    function_name: Seq<char>,
    env: Seq<(String, i32)>,
    data: DataView,
    sfx: Seq<Seq<char>>,
)
    ensures
        (spec_compile_block(block, function_name, env, data, sfx) is Some) == block_compiles(block, env, globals_of(data)),
        spec_compile_block(block, function_name, env, data, sfx) is Some ==> globals_of(
            spec_compile_block(block, function_name, env, data, sfx).unwrap().1,
        ) == globals_of(data),
        spec_compile_block(block, function_name, env, data, sfx) is Some ==> keeps_globals(data, spec_compile_block(block, function_name, env, data, sfx).unwrap().1),
    decreases block, 0int,
{
    if block.len() > 0 {
        let n = spec_block_label_count(block.drop_last()) as int;
        lemma_block_compiles(block.drop_last(), function_name, env, data, sfx.take(n));
        match spec_compile_block(block.drop_last(), function_name, env, data, sfx.take(n)) {
            Some((c1, d1)) => {
                lemma_statement_compiles(block.last(), function_name, env, d1, sfx.skip(n));
            },
            None => {},
        }
    }
}

pub proof fn lemma_functions_compile(functions: Seq<Function<ExprType>>, data: DataView, sfx: Seq<Seq<char>>)
    ensures
        (spec_compile_functions(functions, data, sfx) is Some) == functions_compile(functions, globals_of(data)),
        spec_compile_functions(functions, data, sfx) is Some ==> globals_of(
            spec_compile_functions(functions, data, sfx).unwrap().1,
        ) == globals_of(data),
        spec_compile_functions(functions, data, sfx) is Some ==> keeps_globals(data, spec_compile_functions(functions, data, sfx).unwrap().1),
    decreases functions.len(),
{
    if functions.len() > 0 {
        let n = spec_functions_label_count(functions.drop_last()) as int;
        lemma_functions_compile(functions.drop_last(), data, sfx.take(n));
        match spec_compile_functions(functions.drop_last(), data, sfx.take(n)) {
            Some((c1, d1)) => {
                let f = functions.last();
                lemma_block_compiles(f.body@, f.indentifier@, spec_arguments_env(f.arguments@, 0), d1, sfx.skip(n));
            },
            None => {},
        }
    }
}

/// A program compiles, whatever labels it draws, exactly when `program_compiles` says so.
pub proof fn lemma_program_compiles(program: Program<ExprType>, sfx: Seq<Seq<char>>)
    ensures
        (spec_compile_program(program, sfx) is Some) == program_compiles(program),
{
    lemma_functions_compile(program.functions@, spec_globals_data(program.variables@, Seq::empty()), sfx);
}

/// The function's label stands at `p` and its return label at `q`, after it.
pub open spec fn function_labels_at(code: Seq<InstructionV>, function: Function<ExprType>, p: int, q: int) -> bool {
    &&& 0 <= p < q < code.len()
    &&& code[p] == InstructionV::ILabel(function.indentifier@)
    &&& code[q] == InstructionV::ILabel("return+"@ + function.indentifier@)
}

/// The label of `a` stands at `p`, before the label of `b` at `q`.
pub open spec fn labels_in_order(code: Seq<InstructionV>, a: Function<ExprType>, b: Function<ExprType>, p: int, q: int) -> bool {
    &&& 0 <= p < q < code.len()
    &&& code[p] == InstructionV::ILabel(a.indentifier@)
    &&& code[q] == InstructionV::ILabel(b.indentifier@)
}

/// The code holds the function's label, and after it its return label.
pub open spec fn has_function_labels(code: Seq<InstructionV>, function: Function<ExprType>) -> bool {
    exists|p: int, q: int| function_labels_at(code, function, p, q)
}

/// The code holds the label of `a` before the label of `b`.
pub open spec fn labels_ordered(code: Seq<InstructionV>, a: Function<ExprType>, b: Function<ExprType>) -> bool {
    exists|p: int, q: int| labels_in_order(code, a, b, p, q)
}

/// The code of compiled functions holds, for each function, its label and its return
/// label, and the labels of the functions come in their order.
proof fn lemma_functions_labels(functions: Seq<Function<ExprType>>, data: DataView, sfx: Seq<Seq<char>>)
    requires
        spec_compile_functions(functions, data, sfx) is Some,
    ensures
        ({
            let code = spec_compile_functions(functions, data, sfx).unwrap().0;
            &&& forall|i: int| 0 <= i < functions.len() ==> has_function_labels(code, #[trigger] functions[i])
            &&& forall|i: int, j: int| #![trigger functions[i], functions[j]] 0 <= i < j < functions.len() ==> labels_ordered(code, functions[i], functions[j])
        }),
    decreases functions.len(),
{
    if functions.len() > 0 {
        let n = spec_functions_label_count(functions.drop_last()) as int;
        let init = functions.drop_last();
        let f = functions.last();
        let (c1, d1) = spec_compile_functions(init, data, sfx.take(n)).unwrap();
        lemma_functions_labels(init, data, sfx.take(n));
        lemma_function_frame(f, d1, sfx.skip(n));
        let c2 = spec_compile_function(f, d1, sfx.skip(n)).unwrap().0;
        let code = spec_compile_functions(functions, data, sfx).unwrap().0;
        assert(code == c1 + c2);
        let pl = c1.len() as int;
        let ql = c1.len() + c2.len() - 3;
        assert(function_labels_at(code, f, pl, ql));
        assert forall|i: int| 0 <= i < functions.len() implies has_function_labels(code, #[trigger] functions[i]) by {
            if i < init.len() {
                assert(init[i] == functions[i]);
                assert(has_function_labels(c1, init[i]));
                let (p, q) = choose|p: int, q: int| function_labels_at(c1, init[i], p, q);
                assert(function_labels_at(code, functions[i], p, q));
                assert(has_function_labels(code, functions[i]));
            } else {
                assert(function_labels_at(code, functions[i], pl, ql));
                assert(has_function_labels(code, functions[i]));
            }
        }
        assert forall|i: int, j: int| #![trigger functions[i], functions[j]] 0 <= i < j < functions.len() implies labels_ordered(code, functions[i], functions[j]) by {
            assert(init[i] == functions[i]);
            if j < init.len() {
                assert(init[j] == functions[j]);
                assert(labels_ordered(c1, init[i], init[j]));
                let (p, q) = choose|p: int, q: int| labels_in_order(c1, init[i], init[j], p, q);
                assert(code[p] == c1[p] && code[q] == c1[q]);
                assert(labels_in_order(code, functions[i], functions[j], p, q));
                assert(labels_ordered(code, functions[i], functions[j]));
            } else {
                assert(has_function_labels(c1, init[i]));
                let (p, q) = choose|p: int, q: int| function_labels_at(c1, init[i], p, q);
                assert(code[p] == c1[p]);
                assert(code[pl] == InstructionV::ILabel(functions[j].indentifier@));
                assert(labels_in_order(code, functions[i], functions[j], p, pl));
                assert(labels_ordered(code, functions[i], functions[j]));
            }
        }
    }
}

/// The data of the global variables holds a key for each of them, and every value in it
/// is eight zero bytes.
proof fn lemma_globals_data(variables: Seq<Variable>)
    ensures
        forall|i: int| 0 <= i < variables.len() ==> vhas_key(spec_globals_data(variables, Seq::empty()), "globalvar:"@ + #[trigger] variables[i].identifier@),
        forall|k: int| 0 <= k < spec_globals_data(variables, Seq::empty()).len() ==> #[trigger] spec_globals_data(variables, Seq::empty())[k].1 == Seq::new(8, |i: int| 0u8),
    decreases variables.len(),
{
    if variables.len() > 0 {
        let init = variables.drop_last();
        lemma_globals_data(init);
        let g = spec_globals_data(init, Seq::empty());
        let key = "globalvar:"@ + variables.last().identifier@;
        let zeros = Seq::new(8, |i: int| 0u8);
        assert forall|i: int| 0 <= i < variables.len() implies vhas_key(spec_globals_data(variables, Seq::empty()), "globalvar:"@ + #[trigger] variables[i].identifier@) by {
            lemma_vinsert_has(g, key, zeros, "globalvar:"@ + variables[i].identifier@);
            if i < init.len() {
                assert(init[i] == variables[i]);
            }
        }
        let t = vinsert(g, key, zeros);
        assert forall|k: int| 0 <= k < t.len() implies #[trigger] t[k].1 == zeros by {
            if !vhas_key(g, key) && k == g.len() {
            } else {
                if vhas_key(g, key) {
                    let c = choose|c: int| 0 <= c < g.len() && #[trigger] g[c].0 == key;
                    if k != c {
                        assert(t[k] == g[k]);
                    }
                } else {
                    assert(t[k] == g[k]);
                }
            }
        }
    }
}

/// The data holds eight zero bytes under the key.
pub open spec fn holds_zeros(data: DataView, key: Seq<char>) -> bool {
    exists|k: int| 0 <= k < data.len() && data[k].0 == key && data[k].1 == Seq::new(8, |i: int| 0u8)
}

/// A compiled program starts by calling `main` and exiting with its result; then, for
/// each function in order, comes its code, holding its label and its return label; the
/// data holds eight zero bytes under the key of every global variable. A program with no
/// functions is the start alone, with the global variables as its only data.
pub proof fn lemma_program_layout(program: Program<ExprType>, sfx: Seq<Seq<char>>)
    requires
        spec_compile_program(program, sfx) is Some,
    ensures
        ({
            let (code, data) = spec_compile_program(program, sfx).unwrap();
            let fs = program.functions@;
            let vs = program.variables@;
            let start_data = spec_globals_data(vs, Seq::empty());
            &&& code.take(4) == seq![
                InstructionV::Call(label_operand("main"@, SegmentType::Text)),
                InstructionV::Mov(reg(Register::RDI), reg(Register::RAX)),
                InstructionV::Mov(reg(Register::RAX), lit(0x3c)),
                InstructionV::Syscall,
            ]
            &&& forall|i: int| 0 <= i < fs.len() ==> has_function_labels(code, #[trigger] fs[i])
            &&& forall|i: int, j: int| #![trigger fs[i], fs[j]] 0 <= i < j < fs.len() ==> labels_ordered(code, fs[i], fs[j])
            &&& forall|i: int| 0 <= i < vs.len() ==> globals_of(data).contains(#[trigger] vs[i].identifier@)
            &&& forall|i: int| 0 <= i < vs.len() ==> holds_zeros(data, "globalvar:"@ + #[trigger] vs[i].identifier@)
            &&& forall|i: int| 0 <= i < vs.len() ==> vhas_key(start_data, "globalvar:"@ + #[trigger] vs[i].identifier@)
            &&& forall|k: int| 0 <= k < start_data.len() ==> #[trigger] start_data[k].1 == Seq::new(8, |i: int| 0u8)
            &&& fs.len() == 0 ==> code == spec_program_start() && data == start_data
        }),
{
    let fs = program.functions@;
    let vs = program.variables@;
    let start_data = spec_globals_data(vs, Seq::empty());
    let (c, d) = spec_compile_functions(fs, start_data, sfx).unwrap();
    let (code, data) = spec_compile_program(program, sfx).unwrap();
    let start = spec_program_start();
    assert(code == start + c);
    assert(code.take(4) =~= start);
    lemma_functions_labels(fs, start_data, sfx);
    lemma_functions_compile(fs, start_data, sfx);
    lemma_globals_data(vs);
    assert forall|i: int| 0 <= i < fs.len() implies has_function_labels(code, #[trigger] fs[i]) by {
        assert(has_function_labels(c, fs[i]));
        let (p, q) = choose|p: int, q: int| function_labels_at(c, fs[i], p, q);
        assert(function_labels_at(code, fs[i], p + 4, q + 4));
        assert(has_function_labels(code, fs[i]));
    }
    assert forall|i: int, j: int| #![trigger fs[i], fs[j]] 0 <= i < j < fs.len() implies labels_ordered(code, fs[i], fs[j]) by {
        assert(labels_ordered(c, fs[i], fs[j]));
        let (p, q) = choose|p: int, q: int| labels_in_order(c, fs[i], fs[j], p, q);
        assert(code[p + 4] == c[p] && code[q + 4] == c[q]);
        assert(labels_in_order(code, fs[i], fs[j], p + 4, q + 4));
        assert(labels_ordered(code, fs[i], fs[j]));
    }
    assert forall|i: int| 0 <= i < vs.len() implies globals_of(data).contains(#[trigger] vs[i].identifier@) by {
        assert(globals_of(start_data).contains(vs[i].identifier@));
    }
    assert forall|i: int| 0 <= i < vs.len() implies holds_zeros(data, "globalvar:"@ + #[trigger] vs[i].identifier@) by {
        let key = "globalvar:"@ + vs[i].identifier@;
        assert(vhas_key(start_data, key));
        let k = choose|k: int| 0 <= k < start_data.len() && #[trigger] start_data[k].0 == key;
        reveal_strlit("globalvar:");
        assert(key.take(10) =~= "globalvar:"@);
        assert(is_global_key(start_data[k].0));
        assert(data[k] == start_data[k]);
    }
    if fs.len() == 0 {
        assert(c =~= Seq::<InstructionV>::empty());
        assert(code =~= start);
    }
}

/// Whether a statement compiles
fn statement_compilable(statement: &Statement<ExprType>, env: &Environment, globals: &StrMap<Vec<u8>>) -> (r: bool)
    requires
        env.local.wf(),
        globals.wf(),
    ensures
        r == statement_compiles(*statement, env.local.entries@, globals_of(entries_view(globals.entries@))),
    decreases statement, 1int,
{
    match statement {
        Statement::Declaration(_) => false,
        Statement::Expression(e) => expression_compiles(e, env, globals, ExpressionResult::Value),
        Statement::If { condition, then_branch, else_branch } => expression_compiles(condition, env, globals, ExpressionResult::Value)
            && block_compilable(then_branch, env, globals) && block_compilable(else_branch, env, globals),
        Statement::While { condition, body } => block_compilable(body, env, globals) && expression_compiles(
            condition,
            env,
            globals,
            ExpressionResult::Value,
        ),
        Statement::Return(e) => expression_compiles(e, env, globals, ExpressionResult::Value),
    }
}

/// Whether all statements of a block compile
fn block_compilable(block: &Vec<Statement<ExprType>>, env: &Environment, globals: &StrMap<Vec<u8>>) -> (r: bool)
    requires
        env.local.wf(),
        globals.wf(),
    ensures
        r == block_compiles(block@, env.local.entries@, globals_of(entries_view(globals.entries@))),
    decreases block, 0int,
{
    let ghost g = globals_of(entries_view(globals.entries@));
    let mut i: usize = 0;
    proof {
        assert(block@.take(0) =~= Seq::<Statement<ExprType>>::empty());
    }
    while i < block.len()
        invariant
            i <= block@.len(),
            env.local.wf(),
            globals.wf(),
            g == globals_of(entries_view(globals.entries@)),
            block_compiles(block@.take(i as int), env.local.entries@, g),
        decreases block@.len() - i,
    {
        proof {
            assert(block@.take(i + 1).drop_last() =~= block@.take(i as int));
        }
        if !statement_compilable(&block[i], env, globals) {
            proof {
                lemma_block_compiles_prefix(block@, i + 1, env.local.entries@, g);
            }
            return false;
        }
        i = i + 1;
    }
    proof {
        assert(block@.take(i as int) =~= block@);
    }
    true
}

/// A block whose prefix does not compile does not compile.
proof fn lemma_block_compiles_prefix(block: Seq<Statement<ExprType>>, n: int, env: Seq<(String, i32)>, globals: Set<Seq<char>>)
    requires
        0 <= n <= block.len(),
        !block_compiles(block.take(n), env, globals),
    ensures
        !block_compiles(block, env, globals),
    decreases block.len() - n,
{
    if n < block.len() {
        assert(block.take(n + 1).drop_last() =~= block.take(n));
        lemma_block_compiles_prefix(block, n + 1, env, globals);
    } else {
        assert(block.take(n) =~= block);
    }
}

/// Whether compiling the program succeeds: every statement of it can be compiled.
pub fn compilable(program: &Program<ExprType>) -> (r: bool)
    ensures
        r == (spec_compile_program(*program, Seq::empty()) is Some),
{
    proof {
        lemma_program_compiles(*program, Seq::empty());
    }
    // the data of the global variables, as compiling sets it up
    let mut output = CompilationResult { code: Vec::new(), data: StrMap::new() };
    let ghost vars = program.variables@;
    let mut i: usize = 0;
    proof {
        assert(vars.take(0) =~= Seq::<Variable>::empty());
        assert(entries_view(output.data.entries@) =~= Seq::empty());
    }
    while i < program.variables.len()
        invariant
            vars == program.variables@,
            i <= vars.len(),
            output.data.wf(),
            entries_view(output.data.entries@) == spec_globals_data(vars.take(i as int), Seq::empty()),
        decreases vars.len() - i,
    {
        compile_variable(&program.variables[i], &mut output);
        proof {
            assert(vars.take(i + 1).drop_last() =~= vars.take(i as int));
        }
        i = i + 1;
    }
    proof {
        assert(vars.take(vars.len() as int) =~= vars);
    }
    let ghost g = globals_of(entries_view(output.data.entries@));
    let ghost fs = program.functions@;
    let mut j: usize = 0;
    proof {
        assert(fs.take(0) =~= Seq::<Function<ExprType>>::empty());
    }
    while j < program.functions.len()
        invariant
            fs == program.functions@,
            j <= fs.len(),
            output.data.wf(),
            g == globals_of(entries_view(output.data.entries@)),
            g == globals_of(spec_globals_data(program.variables@, Seq::empty())),
            (spec_compile_program(*program, Seq::empty()) is Some) == functions_compile(fs, g),
            functions_compile(fs.take(j as int), g),
        decreases fs.len() - j,
    {
        proof {
            assert(fs.take(j + 1).drop_last() =~= fs.take(j as int));
        }
        let function = &program.functions[j];
        let n = function.arguments.len();
        if n > 268435453 {
            proof {
                lemma_functions_compile_prefix(fs, j + 1, g);
            }
            return false;
        }
        let env = arguments_environment(&function.arguments);
        if !block_compilable(&function.body, &env, &output.data) {
            proof {
                lemma_functions_compile_prefix(fs, j + 1, g);
            }
            return false;
        }
        j = j + 1;
    }
    proof {
        assert(fs.take(j as int) =~= fs);
    }
    true
}

/// Functions whose prefix does not compile do not compile.
proof fn lemma_functions_compile_prefix(functions: Seq<Function<ExprType>>, n: int, globals: Set<Seq<char>>)
    requires
        0 <= n <= functions.len(),
        !functions_compile(functions.take(n), globals),
    ensures
        !functions_compile(functions, globals),
    decreases functions.len() - n,
{
    if n < functions.len() {
        assert(functions.take(n + 1).drop_last() =~= functions.take(n));
        lemma_functions_compile_prefix(functions, n + 1, globals);
    } else {
        assert(functions.take(n) =~= functions);
    }
}

/// Compile a program where it can be compiled; `None` where compiling it would panic (a
/// local variable declaration, a syscall with more than six arguments, an assignment of
/// or a subscript into a value of no size, the address of an address).
pub fn try_compile(program: Program<ExprType>) -> (r: Option<CompilationResult>)
    ensures
        r is None <==> spec_compile_program(program, Seq::empty()) is None,
        match r {
            Some(result) => result.data.wf() && exists|sfx: Seq<Seq<char>>| #![trigger spec_compile_program(program, sfx)]
                all_random_suffixes(sfx) && spec_compile_program(program, sfx) == Some(
                    (instructions_view(result.code@), entries_view(result.data.entries@)),
                ),
            None => true,
        },
{
    if compilable(&program) {
        Some(compile(program))
    } else {
        None
    }
}

} // verus!
