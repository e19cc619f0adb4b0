//! What straight-line register code does on an x86-64 machine, as the processor manual
//! describes the instructions, and what the compiled operators compute by it.
use vstd::prelude::*;

use crate::abstract_syntax_tree::{ExprType, Literal, Operator, Statement, Type, TypedExpression, UnaryOperator};
use crate::compiling::{spec_block_label_count, spec_compile_block, spec_compile_statement};
use crate::linking::elf::SegmentType;
use crate::string_map::lookup;
use crate::assembling::assemble_instruction_part::{spec_reg64_to_reg32, spec_reg_bits};
use crate::assembling::assembly::{ImmediateValueV, InstructionV, OperandV, Register};
use crate::compiling::compile_expression::{
    label_operand, lit, reg, spec_binary_operator_tail, spec_compile_function_call, spec_compile_expression, spec_compile_local_variable, spec_compile_variable,
    spec_type_size_heap, spec_compile_literal, spec_compile_unary_operator, spec_operator_instructions,
    spec_syscall_pops, spec_syscall_register, DataView, ExpressionResult,
};

verus! {

/// 2^64, the number of values of a machine word.
pub open spec fn word_range() -> int {
    0x1_0000_0000_0000_0000
}

/// A number as a 64-bit machine word, wrapping around.
pub open spec fn word(x: int) -> u64 {
    (((x % word_range()) + word_range()) % word_range()) as u64
}

/// A machine word read as a signed (two's complement) number.
pub open spec fn signed(w: u64) -> int {
    if w >= 0x8000_0000_0000_0000 {
        w - word_range()
    } else {
        w as int
    }
}

/// The quotient of a signed division, rounded toward zero, as the divide instruction
/// computes it.
pub open spec fn truncated_quotient(x: int, y: int) -> int {
    let q = (if x >= 0 { x } else { -x }) / (if y >= 0 { y } else { -y });
    if (x >= 0) == (y >= 0) { q } else { -q }
}

/// The part of the machine that the compiled code uses: the general registers by number,
/// the words on the stack (the last one on top), the two signed numbers that the last
/// compare compared, from which the condition flags follow, the 8-byte words of memory
/// by the address they start at, and the address each data label was placed at.
pub struct Machine {
    pub regs: Map<int, u64>,
    pub stack: Seq<u64>,
    pub compared: (int, int),
    pub mem: Map<int, u64>,
    pub data_at: Map<Seq<char>, u64>,
}

/// The address a base register plus a displacement points at, wrapping around.
pub open spec fn address(m: Machine, base: Register, displacement: int) -> u64 {
    match reg64(OperandV::Register(base)) {
        Some(k) => word(m.regs[k] + displacement),
        None => 0,
    }
}

/// The general register a register name lies in, and how many of its bytes the name
/// covers: the 64-bit registers whole, the low-byte registers their lowest byte; `None`
/// for the names this model does not cover.
pub open spec fn register_slot(r: Register) -> Option<(int, nat)> {
    match r {
        Register::RAX => Some((0, 8)),
        Register::RCX => Some((1, 8)),
        Register::RDX => Some((2, 8)),
        Register::RBX => Some((3, 8)),
        Register::RSP => Some((4, 8)),
        Register::RBP => Some((5, 8)),
        Register::RSI => Some((6, 8)),
        Register::RDI => Some((7, 8)),
        Register::R8 => Some((8, 8)),
        Register::R9 => Some((9, 8)),
        Register::R10 => Some((10, 8)),
        Register::R11 => Some((11, 8)),
        Register::R12 => Some((12, 8)),
        Register::R13 => Some((13, 8)),
        Register::R14 => Some((14, 8)),
        Register::R15 => Some((15, 8)),
        Register::AL => Some((0, 1)),
        Register::CL => Some((1, 1)),
        Register::DL => Some((2, 1)),
        Register::BL => Some((3, 1)),
        Register::SPL => Some((4, 1)),
        Register::BPL => Some((5, 1)),
        Register::SIL => Some((6, 1)),
        Register::DIL => Some((7, 1)),
        Register::R8B => Some((8, 1)),
        Register::R9B => Some((9, 1)),
        Register::R10B => Some((10, 1)),
        Register::R11B => Some((11, 1)),
        Register::R12B => Some((12, 1)),
        Register::R13B => Some((13, 1)),
        Register::R14B => Some((14, 1)),
        Register::R15B => Some((15, 1)),
        _ => None,
    }
}

/// The number of a 64-bit register operand.
pub open spec fn reg64(op: OperandV) -> Option<int> {
    match op {
        OperandV::Register(r) => match register_slot(r) {
            Some((k, w)) => if w == 8 { Some(k) } else { None },
            None => None,
        },
        _ => None,
    }
}

/// The number of a low-byte register operand.
pub open spec fn reg8(op: OperandV) -> Option<int> {
    match op {
        OperandV::Register(r) => match register_slot(r) {
            Some((k, w)) => if w == 1 { Some(k) } else { None },
            None => None,
        },
        _ => None,
    }
}

/// A set-byte instruction: its lowest byte becomes 1 when the condition holds, else 0;
/// the other bytes of the register stay.
pub open spec fn set_byte(m: Machine, op: OperandV, condition: bool) -> Option<Machine> {
    match reg8(op) {
        Some(k) => Some(Machine {
            regs: m.regs.insert(k, ((m.regs[k] / 256) * 256 + if condition { 1int } else { 0int }) as u64),
            ..m
        }),
        None => None,
    }
}

/// A two-register arithmetic or logic instruction: the first register gets `f` of both.
pub open spec fn combine(m: Machine, a: OperandV, b: OperandV, f: spec_fn(u64, u64) -> u64) -> Option<Machine> {
    match (reg64(a), reg64(b)) {
        (Some(i), Some(j)) => Some(Machine { regs: m.regs.insert(i, f(m.regs[i], m.regs[j])), ..m }),
        _ => None,
    }
}

/// What one instruction does to the machine, as the processor manual says; `None` for an
/// instruction or operand form outside this model, and for a divide that faults (by zero,
/// or with a quotient that does not fit in 64 bits). The divide takes RDX (high) and RAX
/// (low) as one signed 128-bit dividend and leaves the quotient in RAX, the remainder in
/// RDX.
#[verifier::opaque]
pub open spec fn step(m: Machine, instruction: InstructionV) -> Option<Machine> {
    match instruction {
        InstructionV::Push(OperandV::Immediate(ImmediateValueV::Literal(v))) => Some(Machine { stack: m.stack.push(word(v as int)), ..m }),
        InstructionV::Push(OperandV::Immediate(ImmediateValueV::Label(l, SegmentType::Data))) => Some(
            Machine { stack: m.stack.push(m.data_at[l]), ..m },
        ),
        InstructionV::Push(OperandV::Indirect(r)) => match reg64(OperandV::Register(r)) {
            Some(k) => Some(Machine { stack: m.stack.push(m.mem[m.regs[k] as int]), ..m }),
            None => None,
        },
        InstructionV::Push(OperandV::IndirectDisplacement(r, d)) => match reg64(OperandV::Register(r)) {
            Some(_) => Some(Machine { stack: m.stack.push(m.mem[address(m, r, d as int) as int]), ..m }),
            None => None,
        },
        InstructionV::LEA(dst, OperandV::IndirectDisplacement(r, d)) => match (reg64(dst), reg64(OperandV::Register(r))) {
            (Some(k), Some(_)) => Some(Machine { regs: m.regs.insert(k, address(m, r, d as int)), ..m }),
            _ => None,
        },
        InstructionV::Mov(OperandV::Indirect(r), src) => match (reg64(OperandV::Register(r)), reg64(src)) {
            (Some(k), Some(j)) => Some(Machine { mem: m.mem.insert(m.regs[k] as int, m.regs[j]), ..m }),
            _ => None,
        },
        InstructionV::Push(op) => match reg64(op) {
            Some(k) => Some(Machine { stack: m.stack.push(m.regs[k]), ..m }),
            None => None,
        },
        InstructionV::Pop(op) => match reg64(op) {
            Some(k) => if m.stack.len() > 0 {
                Some(Machine { regs: m.regs.insert(k, m.stack.last()), stack: m.stack.drop_last(), ..m })
            } else {
                None
            },
            None => None,
        },
        InstructionV::Mov(dst, OperandV::Immediate(ImmediateValueV::Literal(v))) => match reg64(dst) {
            Some(k) => Some(Machine { regs: m.regs.insert(k, word(v as int)), ..m }),
            None => None,
        },
        InstructionV::Mov(dst, OperandV::Immediate(ImmediateValueV::Label(l, SegmentType::Data))) => match reg64(dst) {
            Some(k) => Some(Machine { regs: m.regs.insert(k, m.data_at[l]), ..m }),
            None => None,
        },
        InstructionV::Cmp(a, OperandV::Immediate(ImmediateValueV::Literal(v))) => match reg64(a) {
            Some(i) => Some(Machine { compared: (signed(m.regs[i]), v as int), ..m }),
            None => None,
        },
        InstructionV::Cmp(a, b) => match (reg64(a), reg64(b)) {
            (Some(i), Some(j)) => Some(Machine { compared: (signed(m.regs[i]), signed(m.regs[j])), ..m }),
            _ => None,
        },
        InstructionV::SetL(op) => set_byte(m, op, m.compared.0 < m.compared.1),
        InstructionV::SetLE(op) => set_byte(m, op, m.compared.0 <= m.compared.1),
        InstructionV::SetG(op) => set_byte(m, op, m.compared.0 > m.compared.1),
        InstructionV::SetGE(op) => set_byte(m, op, m.compared.0 >= m.compared.1),
        InstructionV::SetE(op) => set_byte(m, op, m.compared.0 == m.compared.1),
        InstructionV::SetNE(op) => set_byte(m, op, m.compared.0 != m.compared.1),
        InstructionV::Add(OperandV::Register(Register::RSP), OperandV::Immediate(ImmediateValueV::Literal(n))) => if 0 <= n
            && n % 8 == 0 && n / 8 <= m.stack.len() {
            Some(Machine { stack: m.stack.subrange(0, m.stack.len() - n / 8), ..m })
        } else {
            None
        },
        InstructionV::Add(a, b) => combine(m, a, b, |x: u64, y: u64| word(x + y)),
        InstructionV::Sub(a, b) => combine(m, a, b, |x: u64, y: u64| word(x - y)),
        InstructionV::IMul(a, b) => combine(m, a, b, |x: u64, y: u64| word(signed(x) * signed(y))),
        InstructionV::And(a, b) => combine(m, a, b, |x: u64, y: u64| x & y),
        InstructionV::Or(a, b) => combine(m, a, b, |x: u64, y: u64| x | y),
        InstructionV::Xor(a, OperandV::Immediate(ImmediateValueV::Literal(v))) => match reg64(a) {
            Some(k) => Some(Machine { regs: m.regs.insert(k, m.regs[k] ^ word(v as int)), ..m }),
            None => None,
        },
        InstructionV::IDiv(op) => match reg64(op) {
            Some(k) => {
                let dividend = signed(m.regs[2]) * word_range() + m.regs[0];
                let divisor = signed(m.regs[k]);
                let q = truncated_quotient(dividend, divisor);
                if divisor == 0 || q < -0x8000_0000_0000_0000 || q >= 0x8000_0000_0000_0000 {
                    None
                } else {
                    Some(Machine { regs: m.regs.insert(0, word(q)).insert(2, word(dividend - divisor * q)), ..m })
                }
            },
            None => None,
        },
        _ => None,
    }
}

/// What straight-line code does to the machine, one instruction after the other.
#[verifier::opaque]
pub open spec fn run(m: Machine, code: Seq<InstructionV>) -> Option<Machine>
    decreases code.len(),
{
    if code.len() == 0 {
        Some(m)
    } else {
        match step(m, code[0]) {
            Some(m2) => run(m2, code.drop_first()),
            None => None,
        }
    }
}

/// What a binary operator means on the words of its two operands, the left one first:
/// arithmetic wraps around 64 bits, the orderings compare as signed numbers, and every
/// comparison gives 1 when it holds and 0 when it does not.
pub open spec fn operator_meaning(op: Operator, a: u64, b: u64) -> u64 {
    let holds = |c: bool| if c { 1u64 } else { 0u64 };
    match op {
        Operator::Addition => word(a + b),
        Operator::Subtraction => word(a - b),
        Operator::Multiplication => word(signed(a) * signed(b)),
        Operator::And => a & b,
        Operator::Or => a | b,
        Operator::Less => holds(signed(a) < signed(b)),
        Operator::LessEq => holds(signed(a) <= signed(b)),
        Operator::Greater => holds(signed(a) > signed(b)),
        Operator::GreaterEquals => holds(signed(a) >= signed(b)),
        Operator::Equals => holds(a == b),
        Operator::NotEqual => holds(a != b),
        _ => 0,
    }
}

/// The operators whose compiled code combines the two values on top of the stack into one.
pub open spec fn is_value_operator(op: Operator) -> bool {
    match op {
        Operator::Assignment | Operator::Division | Operator::Modulo | Operator::ArraySubScript => false,
        _ => true,
    }
}

/// Running two pieces of code one after the other is running the first, then the second.
pub proof fn lemma_run_append(m: Machine, x: Seq<InstructionV>, y: Seq<InstructionV>)
    ensures
        run(m, x + y) == match run(m, x) {
            Some(m2) => run(m2, y),
            None => None,
        },
    decreases x.len(),
{
    reveal(run);
    if x.len() == 0 {
        assert(x + y =~= y);
    } else {
        assert((x + y)[0] == x[0]);
        assert((x + y).drop_first() =~= x.drop_first() + y);
        match step(m, x[0]) {
            Some(m2) => lemma_run_append(m2, x.drop_first(), y),
            None => {},
        }
    }
}

/// Running one instruction is taking its step.
proof fn lemma_run_one(m: Machine, i: InstructionV)
    ensures
        run(m, seq![i]) == step(m, i),
{
    reveal_with_fuel(run, 2);
    assert(seq![i].drop_first() =~= Seq::<InstructionV>::empty());
}

/// The compare-and-set code of a comparison: afterwards R14 holds 1 when the condition
/// holds of the two compared values and 0 when it does not.
#[verifier::spinoff_prover]
#[verifier::rlimit(40)]
proof fn lemma_comparison_code(m: Machine, op: Operator)
    requires
        op == Operator::Less || op == Operator::LessEq || op == Operator::Greater || op == Operator::GreaterEquals
            || op == Operator::Equals || op == Operator::NotEqual,
    ensures
        run(m, spec_operator_instructions(op)) is Some,
        run(m, spec_operator_instructions(op)).unwrap().regs[14] == operator_meaning(op, m.regs[14], m.regs[15]),
        run(m, spec_operator_instructions(op)).unwrap().stack == m.stack,
{
    let a = m.regs[14];
    let b = m.regs[15];
    let code = spec_operator_instructions(op);
    lemma_compare_and_clear(m);
    let m4 = run(m, compare_and_clear()).unwrap();
    assert(signed(a) == signed(b) <==> a == b);
    match op {
        Operator::Less => {
            let set = InstructionV::SetL(OperandV::Register(Register::R14B));
            lemma_set_step(m4, op);
            lemma_run_one(m4, set);
            assert(code =~= compare_and_clear() + seq![set]);
            lemma_run_append(m, compare_and_clear(), seq![set]);
        },
        Operator::LessEq => {
            let set = InstructionV::SetLE(OperandV::Register(Register::R14B));
            lemma_set_step(m4, op);
            lemma_run_one(m4, set);
            assert(code =~= compare_and_clear() + seq![set]);
            lemma_run_append(m, compare_and_clear(), seq![set]);
        },
        Operator::Greater => {
            let set = InstructionV::SetG(OperandV::Register(Register::R14B));
            lemma_set_step(m4, op);
            lemma_run_one(m4, set);
            assert(code =~= compare_and_clear() + seq![set]);
            lemma_run_append(m, compare_and_clear(), seq![set]);
        },
        Operator::GreaterEquals => {
            let set = InstructionV::SetGE(OperandV::Register(Register::R14B));
            lemma_set_step(m4, op);
            lemma_run_one(m4, set);
            assert(code =~= compare_and_clear() + seq![set]);
            lemma_run_append(m, compare_and_clear(), seq![set]);
        },
        Operator::Equals => {
            let set = InstructionV::SetE(OperandV::Register(Register::R14B));
            lemma_set_step(m4, op);
            lemma_run_one(m4, set);
            assert(code =~= compare_and_clear() + seq![set]);
            lemma_run_append(m, compare_and_clear(), seq![set]);
        },
        Operator::NotEqual => {
            let set = InstructionV::SetNE(OperandV::Register(Register::R14B));
            lemma_set_step(m4, op);
            lemma_run_one(m4, set);
            assert(code =~= compare_and_clear() + seq![set]);
            lemma_run_append(m, compare_and_clear(), seq![set]);
        },
        _ => {},
    }
}

/// Compare R14 with R15, then clear R14.
spec fn compare_and_clear() -> Seq<InstructionV> {
    seq![
        InstructionV::Cmp(OperandV::Register(Register::R14), OperandV::Register(Register::R15)),
        InstructionV::Mov(OperandV::Register(Register::R14), OperandV::Immediate(ImmediateValueV::Literal(0))),
    ]
}

/// Comparing R14 with R15 and clearing R14 records the two registers' signed values and
/// leaves 0 in R14 and the stack as it was.
#[verifier::spinoff_prover]
#[verifier::rlimit(40)]
proof fn lemma_compare_and_clear(m: Machine)
    ensures
        run(m, compare_and_clear()) is Some,
        run(m, compare_and_clear()).unwrap().regs[14] == 0u64,
        run(m, compare_and_clear()).unwrap().compared == (signed(m.regs[14]), signed(m.regs[15])),
        run(m, compare_and_clear()).unwrap().stack == m.stack,
{
    reveal(step);
    let cmp = compare_and_clear()[0];
    let mov = compare_and_clear()[1];
    let m3 = Machine { compared: (signed(m.regs[14]), signed(m.regs[15])), ..m };
    assert(step(m, cmp) == Some(m3));
    let m4 = Machine { regs: m3.regs.insert(14, word(0)), ..m3 };
    assert(step(m3, mov) == Some(m4));
    assert(word(0) == 0u64);
    lemma_run_one(m, cmp);
    lemma_run_one(m3, mov);
    assert(compare_and_clear() =~= seq![cmp] + seq![mov]);
    lemma_run_append(m, seq![cmp], seq![mov]);
}

/// The set-byte instruction of a comparison, with R14 cleared, leaves in R14 1 when the
/// comparison holds of the compared values and 0 when it does not.
#[verifier::spinoff_prover]
#[verifier::rlimit(40)]
proof fn lemma_set_step(m: Machine, op: Operator)
    requires
        op == Operator::Less || op == Operator::LessEq || op == Operator::Greater || op == Operator::GreaterEquals
            || op == Operator::Equals || op == Operator::NotEqual,
        m.regs[14] == 0u64,
    ensures
        step(m, spec_operator_instructions(op)[2]) is Some,
        step(m, spec_operator_instructions(op)[2]).unwrap().stack == m.stack,
        step(m, spec_operator_instructions(op)[2]).unwrap().regs[14] == (if match op {
            Operator::Less => m.compared.0 < m.compared.1,
            Operator::LessEq => m.compared.0 <= m.compared.1,
            Operator::Greater => m.compared.0 > m.compared.1,
            Operator::GreaterEquals => m.compared.0 >= m.compared.1,
            Operator::Equals => m.compared.0 == m.compared.1,
            _ => m.compared.0 != m.compared.1,
        } { 1u64 } else { 0u64 }),
{
    reveal(step);
}

/// The code of an arithmetic or logic operator: afterwards R14 holds the operator's result
/// on the two registers' values.
#[verifier::spinoff_prover]
#[verifier::rlimit(40)]
proof fn lemma_arithmetic_code(m: Machine, op: Operator)
    requires
        op == Operator::Addition || op == Operator::Subtraction || op == Operator::Multiplication || op == Operator::And
            || op == Operator::Or,
    ensures
        run(m, spec_operator_instructions(op)) is Some,
        run(m, spec_operator_instructions(op)).unwrap().regs[14] == operator_meaning(op, m.regs[14], m.regs[15]),
        run(m, spec_operator_instructions(op)).unwrap().stack == m.stack,
{
    reveal(step);
    let code = spec_operator_instructions(op);
    lemma_run_one(m, code[0]);
    assert(code == seq![code[0]]);
}

/// The code compiled for an arithmetic, logic or comparison operator takes the two values
/// on top of the stack (the left operand's below the right one's) and leaves in their
/// place what the operator means on them: for `<` 1 exactly when the left value is
/// less than the right, so equal values give 0 for `<` and 1 for `<=`; for `+` their sum,
/// wrapping around; and so on.
#[verifier::spinoff_prover]
#[verifier::rlimit(40)]
pub proof fn lemma_operator_code_meaning(
    op: Operator,
    operand1_type: Type,
    type_: Type,
    result: ExpressionResult,
    m: Machine,
    below: Seq<u64>,
    a: u64,
    b: u64,
)
    requires
        is_value_operator(op),
        m.stack == below.push(a).push(b),
    ensures
        spec_binary_operator_tail(op, operand1_type, type_, result) is Some,
        run(m, spec_binary_operator_tail(op, operand1_type, type_, result).unwrap()) is Some,
        run(m, spec_binary_operator_tail(op, operand1_type, type_, result).unwrap()).unwrap().stack
            == below.push(operator_meaning(op, a, b)),
{
    reveal(step);
    let pop15 = InstructionV::Pop(OperandV::Register(Register::R15));
    let pop14 = InstructionV::Pop(OperandV::Register(Register::R14));
    let push14 = InstructionV::Push(OperandV::Register(Register::R14));
    let pops = seq![pop15, pop14];
    let body = spec_operator_instructions(op);
    let code = spec_binary_operator_tail(op, operand1_type, type_, result).unwrap();
    assert(code == pops + body + seq![push14]);
    let s1 = below.push(a);
    assert(m.stack.last() == b && m.stack.drop_last() =~= s1);
    assert(s1.last() == a && s1.drop_last() =~= below);
    let m1 = Machine { regs: m.regs.insert(15, b), stack: s1, ..m };
    let m2 = Machine { regs: m1.regs.insert(14, a), stack: below, ..m1 };
    assert(step(m, pop15) == Some(m1));
    assert(step(m1, pop14) == Some(m2));
    lemma_run_one(m, pop15);
    lemma_run_one(m1, pop14);
    lemma_run_append(m, seq![pop15], seq![pop14]);
    assert(seq![pop15] + seq![pop14] =~= pops);
    assert(run(m, pops) == Some(m2));
    assert(m2.regs[14] == a && m2.regs[15] == b);
    if op == Operator::Addition || op == Operator::Subtraction || op == Operator::Multiplication || op == Operator::And
        || op == Operator::Or {
        lemma_arithmetic_code(m2, op);
    } else {
        lemma_comparison_code(m2, op);
    }
    let m3 = run(m2, body).unwrap();
    lemma_run_one(m3, push14);
    lemma_run_append(m, pops, body);
    lemma_run_append(m, pops + body, seq![push14]);
}

/// The code compiled for `!` on a truth value takes the operand's value, 0 or 1, off
/// the stack and leaves the other one in its place.
#[verifier::spinoff_prover]
#[verifier::rlimit(40)]
pub proof fn lemma_negation_code_meaning(
    e: ExprType,
    env: Seq<(String, i32)>,
    data: DataView,
    result: ExpressionResult,
    m: Machine,
    below: Seq<u64>,
    b: u64,
)
    requires
        e.0 matches TypedExpression::UnaryOp(UnaryOperator::Negation, _),
        spec_compile_expression(e, env, data, result) is Some,
        b <= 1,
        m.stack == below.push(b),
    ensures
        ({
            let operand = *e.0->UnaryOp_1;
            let code = spec_compile_expression(e, env, data, result).unwrap().0;
            let c = spec_compile_expression(operand, env, data, result).unwrap().0;
            &&& code.len() >= c.len()
            &&& code.subrange(0, c.len() as int) == c
            &&& run(m, code.skip(c.len() as int)) is Some
            &&& run(m, code.skip(c.len() as int)).unwrap().stack == below.push((1 - b) as u64)
        }),
{
    reveal(spec_compile_expression);
    reveal(step);
    let operand = *e.0->UnaryOp_1;
    let code = spec_compile_expression(e, env, data, result).unwrap().0;
    assert(spec_compile_expression(e, env, data, result) == spec_compile_unary_operator(e, env, data, result));
    let c = spec_compile_expression(operand, env, data, result).unwrap().0;
    let pop14 = InstructionV::Pop(OperandV::Register(Register::R14));
    let xor1 = InstructionV::Xor(OperandV::Register(Register::R14), OperandV::Immediate(ImmediateValueV::Literal(1)));
    let push14 = InstructionV::Push(OperandV::Register(Register::R14));
    assert(code == c + seq![pop14, xor1, push14]);
    assert(code.subrange(0, c.len() as int) =~= c);
    assert(code.skip(c.len() as int) =~= seq![pop14] + seq![xor1] + seq![push14]);
    assert(m.stack.last() == b && m.stack.drop_last() =~= below);
    let m1 = Machine { regs: m.regs.insert(14, b), stack: below, ..m };
    assert(step(m, pop14) == Some(m1));
    assert(word(1) == 1u64);
    assert(b ^ 1u64 == (1 - b) as u64) by (bit_vector)
        requires
            b <= 1,
    ;
    let m2 = Machine { regs: m1.regs.insert(14, (1 - b) as u64), ..m1 };
    assert(step(m1, xor1) == Some(m2));
    lemma_run_one(m, pop14);
    lemma_run_one(m1, xor1);
    lemma_run_one(m2, push14);
    lemma_run_append(m, seq![pop14], seq![xor1]);
    lemma_run_append(m, seq![pop14] + seq![xor1], seq![push14]);
}

/// The code compiled for `/` and `%` takes the two values on top of the stack and, when the
/// left one is not negative and the right one is not zero, leaves in their place the
/// quotient rounded toward zero (`/`) or the remainder that goes with it (`%`).
#[verifier::spinoff_prover]
#[verifier::rlimit(40)]
pub proof fn lemma_division_code_meaning(
    op: Operator,
    operand1_type: Type,
    type_: Type,
    result: ExpressionResult,
    m: Machine,
    below: Seq<u64>,
    a: u64,
    b: u64,
)
    requires
        op == Operator::Division || op == Operator::Modulo,
        m.stack == below.push(a).push(b),
        signed(a) >= 0,
        b != 0,
    ensures
        spec_binary_operator_tail(op, operand1_type, type_, result) is Some,
        run(m, spec_binary_operator_tail(op, operand1_type, type_, result).unwrap()) is Some,
        run(m, spec_binary_operator_tail(op, operand1_type, type_, result).unwrap()).unwrap().stack == below.push(
            if op == Operator::Division {
                word(truncated_quotient(signed(a), signed(b)))
            } else {
                word(signed(a) - signed(b) * truncated_quotient(signed(a), signed(b)))
            },
        ),
{
    let code = spec_binary_operator_tail(op, operand1_type, type_, result).unwrap();
    let target = if op == Operator::Division { Register::RAX } else { Register::RDX };
    let pop14 = InstructionV::Pop(OperandV::Register(Register::R14));
    let pop_rax = InstructionV::Pop(OperandV::Register(Register::RAX));
    let clear = InstructionV::Mov(OperandV::Register(Register::RDX), OperandV::Immediate(ImmediateValueV::Literal(0)));
    let div = InstructionV::IDiv(OperandV::Register(Register::R14));
    let push = InstructionV::Push(OperandV::Register(target));
    assert(code =~= seq![pop14] + seq![pop_rax] + seq![clear] + seq![div] + seq![push]);
    let s1 = below.push(a);
    assert(m.stack.last() == b && m.stack.drop_last() =~= s1);
    assert(s1.last() == a && s1.drop_last() =~= below);
    let m1 = Machine { regs: m.regs.insert(14, b), stack: s1, ..m };
    let m2 = Machine { regs: m1.regs.insert(0, a), stack: below, ..m1 };
    assert(word(0) == 0u64);
    let m3 = Machine { regs: m2.regs.insert(2, 0u64), ..m2 };
    assert(step(m, pop14) == Some(m1)) by { reveal(step); }
    assert(step(m1, pop_rax) == Some(m2)) by { reveal(step); }
    assert(step(m2, clear) == Some(m3)) by { reveal(step); }
    let x = signed(a);
    let y = signed(b);
    assert(x == a);
    assert(y != 0);
    assert(signed(m3.regs[2]) * word_range() + m3.regs[0] == x);
    let q = truncated_quotient(x, y);
    let ay = if y >= 0 { y } else { -y };
    vstd::arithmetic::div_mod::lemma_div_is_ordered_by_denominator(x, 1, ay);
    assert(x / 1 == x);
    assert(-0x8000_0000_0000_0000 <= q < 0x8000_0000_0000_0000);
    let m4 = Machine { regs: m3.regs.insert(0, word(q)).insert(2, word(x - y * q)), ..m3 };
    assert(m3.regs[14] == b && m3.regs[0] == a && m3.regs[2] == 0u64);
    assert(step(m3, div) == Some(m4)) by { reveal(step); }
    lemma_run_one(m, pop14);
    lemma_run_one(m1, pop_rax);
    lemma_run_one(m2, clear);
    lemma_run_one(m3, div);
    lemma_run_one(m4, push);
    let m5 = Machine { stack: below.push(m4.regs[if op == Operator::Division { 0int } else { 2int }]), ..m4 };
    assert(step(m4, push) == Some(m5)) by { reveal(step); }
    lemma_run_append(m, seq![pop14], seq![pop_rax]);
    lemma_run_append(m, seq![pop14] + seq![pop_rax], seq![clear]);
    lemma_run_append(m, seq![pop14] + seq![pop_rax] + seq![clear], seq![div]);
    lemma_run_append(m, seq![pop14] + seq![pop_rax] + seq![clear] + seq![div], seq![push]);
}

/// The register that carries the `i`-th value of a system call by the Linux x86-64
/// convention: the call number in RAX, then the arguments in RDI, RSI, RDX, R10, R8, R9.
pub open spec fn syscall_abi_slot(i: int) -> int {
    seq![0int, 7int, 6int, 2int, 10int, 8int, 9int][i]
}

/// Popping the values of a system call, pushed in order (call number first), puts each
/// value in the register the system call convention reads it from, takes them off the
/// stack, and leaves every other register as it was.
pub proof fn lemma_syscall_pops_meaning(m: Machine, below: Seq<u64>, values: Seq<u64>)
    requires
        values.len() <= 7,
        m.stack == below + values,
    ensures
        run(m, spec_syscall_pops(values.len())) is Some,
        run(m, spec_syscall_pops(values.len())).unwrap().stack == below,
        forall|i: int| 0 <= i < values.len() ==> run(m, spec_syscall_pops(values.len())).unwrap().regs[#[trigger] syscall_abi_slot(i)] == values[i],
        forall|k: int| (forall|i: int| 0 <= i < values.len() ==> k != #[trigger] syscall_abi_slot(i)) ==> run(m, spec_syscall_pops(values.len())).unwrap().regs[k] == m.regs[k],
    decreases values.len(),
{
    reveal(step);
    let n = values.len() as int;
    let pops = spec_syscall_pops(values.len());
    if n == 0 {
        reveal(run);
        assert(m.stack =~= below);
    } else {
        let r = spec_syscall_register(n - 1);
        let slot = syscall_abi_slot(n - 1);
        let pop = InstructionV::Pop(OperandV::Register(r));
        let rest = values.drop_last();
        assert(pops =~= seq![pop] + spec_syscall_pops(rest.len()));
        assert(register_slot(r) == Some((slot, 8nat)));
        assert(m.stack.last() == values[n - 1] && m.stack.drop_last() =~= below + rest);
        let m1 = Machine { regs: m.regs.insert(slot, values[n - 1]), stack: below + rest, ..m };
        assert(step(m, pop) == Some(m1));
        lemma_run_one(m, pop);
        lemma_run_append(m, seq![pop], spec_syscall_pops(rest.len()));
        lemma_syscall_pops_meaning(m1, below, rest);
        let fin = run(m1, spec_syscall_pops(rest.len())).unwrap();
        assert(forall|i: int, j: int| 0 <= i < j < 7 ==> syscall_abi_slot(i) != syscall_abi_slot(j));
        assert(forall|j: int| 0 <= j < rest.len() ==> slot != #[trigger] syscall_abi_slot(j));
        assert(fin.regs[slot] == m1.regs[slot]);
        assert forall|i: int| 0 <= i < n implies fin.regs[#[trigger] syscall_abi_slot(i)] == values[i] by {
            if i < n - 1 {
                assert(rest[i] == values[i]);
                assert(fin.regs[syscall_abi_slot(i)] == rest[i]);
            }
        }
        assert forall|k: int| (forall|i: int| 0 <= i < n ==> k != #[trigger] syscall_abi_slot(i)) implies fin.regs[k] == m.regs[k] by {
            assert(k != syscall_abi_slot(n - 1));
            assert(forall|i: int| 0 <= i < rest.len() ==> k != #[trigger] syscall_abi_slot(i));
            assert(fin.regs[k] == m1.regs[k]);
        }
    }
}

/// The code compiled for a number pushes the number as a 64-bit word, for a truth value
/// 1 for `True` and 0 for `False`, and for a string the address of its data label
/// `string_literal:` and the string.
pub proof fn lemma_literal_code_meaning(l: Literal, data: DataView, m: Machine)
    ensures
        run(m, spec_compile_literal(l, data).0) is Some,
        run(m, spec_compile_literal(l, data).0).unwrap().stack == m.stack.push(match l {
            Literal::Int(i) => word(i as int),
            Literal::Bool(b) => if b { 1u64 } else { 0u64 },
            Literal::String(s) => m.data_at["string_literal:"@ + s@],
        }),
{
    reveal(step);
    let code = spec_compile_literal(l, data).0;
    lemma_run_one(m, code[0]);
    assert(code =~= seq![code[0]]);
    assert(word(1) == 1u64 && word(0) == 0u64);
}

/// Where a jump goes, as the processor manual says: `Some(Some(l))` when it jumps to the
/// code label `l`, `Some(None)` when a conditional jump is not taken and execution goes
/// on with the next instruction; `JE` is taken when the compared values are equal, `JNE`
/// when they are not, `JMP` always. `None` for anything else.
pub open spec fn jump(m: Machine, instruction: InstructionV) -> Option<Option<Seq<char>>> {
    match instruction {
        InstructionV::JE(ImmediateValueV::Label(l, SegmentType::Text)) => Some(
            if m.compared.0 == m.compared.1 { Some(l) } else { None },
        ),
        InstructionV::JNE(ImmediateValueV::Label(l, SegmentType::Text)) => Some(
            if m.compared.0 != m.compared.1 { Some(l) } else { None },
        ),
        InstructionV::Jmp(OperandV::Immediate(ImmediateValueV::Label(l, SegmentType::Text))) => Some(Some(l)),
        _ => None,
    }
}

/// Taking a truth value off the stack and comparing it with 0.
proof fn lemma_test_value(m: Machine, below: Seq<u64>, v: u64)
    requires
        m.stack == below.push(v),
    ensures
        run(m, seq![InstructionV::Pop(OperandV::Register(Register::R14)), InstructionV::Cmp(OperandV::Register(Register::R14), OperandV::Immediate(ImmediateValueV::Literal(0)))]) is Some,
        ({
            let m2 = run(m, seq![InstructionV::Pop(OperandV::Register(Register::R14)), InstructionV::Cmp(OperandV::Register(Register::R14), OperandV::Immediate(ImmediateValueV::Literal(0)))]).unwrap();
            &&& m2.stack == below
            &&& (m2.compared.0 == m2.compared.1) == (v == 0)
        }),
{
    reveal(step);
    let pop = InstructionV::Pop(OperandV::Register(Register::R14));
    let cmp = InstructionV::Cmp(OperandV::Register(Register::R14), OperandV::Immediate(ImmediateValueV::Literal(0)));
    assert(m.stack.last() == v && m.stack.drop_last() =~= below);
    let m1 = Machine { regs: m.regs.insert(14, v), stack: below, ..m };
    assert(step(m, pop) == Some(m1));
    let m2 = Machine { compared: (signed(v), 0int), ..m1 };
    assert(step(m1, cmp) == Some(m2));
    assert(signed(v) == 0 <==> v == 0);
    lemma_run_one(m, pop);
    lemma_run_one(m1, cmp);
    lemma_run_append(m, seq![pop], seq![cmp]);
    assert(seq![pop] + seq![cmp] =~= seq![pop, cmp]);
}

/// An `if` compiles to: the condition's code, then a test of its value that jumps to the
/// else label exactly when the value is 0 (false) and goes on into the then branch
/// otherwise; after the then branch an unconditional jump to the end label; the else
/// label, the else branch, and the end label last. The two labels differ.
#[verifier::spinoff_prover]
#[verifier::rlimit(40)]
pub proof fn lemma_if_control_flow(
    condition: ExprType,
    then_branch: Vec<Statement<ExprType>>,
    else_branch: Vec<Statement<ExprType>>,
    function_name: Seq<char>,
    env: Seq<(String, i32)>,
    data: DataView,
    sfx: Seq<Seq<char>>,
    m: Machine,
    below: Seq<u64>,
    v: u64,
)
    requires
        spec_compile_statement(Statement::If { condition, then_branch, else_branch }, function_name, env, data, sfx) is Some,
        m.stack == below.push(v),
    ensures
        ({
            let code = spec_compile_statement(Statement::If { condition, then_branch, else_branch }, function_name, env, data, sfx).unwrap().0;
            let nt = spec_block_label_count(then_branch@) as int;
            let ne = spec_block_label_count(else_branch@) as int;
            let (c0, d0) = spec_compile_expression(condition, env, data, ExpressionResult::Value).unwrap();
            let (c1, d1) = spec_compile_block(then_branch@, function_name, env, d0, sfx.subrange(1, 1 + nt)).unwrap();
            let c2 = spec_compile_block(else_branch@, function_name, env, d1, sfx.subrange(2 + nt, 2 + nt + ne)).unwrap().0;
            let else_label = "begin_else+"@ + sfx[0];
            let end_label = "end_else+"@ + sfx[1 + nt];
            let k = c0.len() as int;
            let j = k + 3 + c1.len();
            let tested = run(m, code.subrange(k, k + 2));
            &&& code.len() == j + 2 + c2.len() + 1
            &&& code.subrange(0, k) == c0
            &&& tested is Some
            &&& tested.unwrap().stack == below
            &&& jump(tested.unwrap(), code[k + 2]) == Some(if v == 0 { Some(else_label) } else { None::<Seq<char>> })
            &&& code.subrange(k + 3, j) == c1
            &&& jump(m, code[j]) == Some(Some(end_label))
            &&& code[j + 1] == InstructionV::ILabel(else_label)
            &&& code.subrange(j + 2, j + 2 + c2.len()) == c2
            &&& code.last() == InstructionV::ILabel(end_label)
            &&& else_label != end_label
        }),
{
    let code = spec_compile_statement(Statement::If { condition, then_branch, else_branch }, function_name, env, data, sfx).unwrap().0;
    let nt = spec_block_label_count(then_branch@) as int;
    let c0 = spec_compile_expression(condition, env, data, ExpressionResult::Value).unwrap().0;
    let k = c0.len() as int;
    let test = seq![InstructionV::Pop(OperandV::Register(Register::R14)), InstructionV::Cmp(OperandV::Register(Register::R14), OperandV::Immediate(ImmediateValueV::Literal(0)))];
    assert(code.subrange(k, k + 2) =~= test);
    lemma_test_value(m, below, v);
    assert(code.subrange(0, k) =~= c0);
    let else_label = "begin_else+"@ + sfx[0];
    let end_label = "end_else+"@ + sfx[1 + nt];
    reveal_strlit("begin_else+");
    reveal_strlit("end_else+");
    assert(else_label[0] != end_label[0]);
    let d0 = spec_compile_expression(condition, env, data, ExpressionResult::Value).unwrap().1;
    let (c1, d1) = spec_compile_block(then_branch@, function_name, env, d0, sfx.subrange(1, 1 + nt)).unwrap();
    let j = k + 3 + c1.len();
    assert(code.subrange(k + 3, j) =~= c1);
    let ne = spec_block_label_count(else_branch@) as int;
    let c2 = spec_compile_block(else_branch@, function_name, env, d1, sfx.subrange(2 + nt, 2 + nt + ne)).unwrap().0;
    assert(code.subrange(j + 2, j + 2 + c2.len()) =~= c2);
}

/// A `while` compiles to: a jump to the condition label; the body label and the body;
/// the condition label and the condition's code; then a test of its value that jumps back
/// to the body label exactly when the value is not 0 (true), and otherwise goes on past
/// the loop. The two labels differ.
#[verifier::spinoff_prover]
#[verifier::rlimit(40)]
pub proof fn lemma_while_control_flow(
    condition: ExprType,
    body: Vec<Statement<ExprType>>,
    function_name: Seq<char>,
    env: Seq<(String, i32)>,
    data: DataView,
    sfx: Seq<Seq<char>>,
    m: Machine,
    below: Seq<u64>,
    v: u64,
)
    requires
        spec_compile_statement(Statement::While { condition, body }, function_name, env, data, sfx) is Some,
        m.stack == below.push(v),
    ensures
        ({
            let code = spec_compile_statement(Statement::While { condition, body }, function_name, env, data, sfx).unwrap().0;
            let nb = spec_block_label_count(body@) as int;
            let (c1, d1) = spec_compile_block(body@, function_name, env, data, sfx.subrange(2, 2 + nb)).unwrap();
            let c2 = spec_compile_expression(condition, env, d1, ExpressionResult::Value).unwrap().0;
            let body_label = "while_body+"@ + sfx[0];
            let condition_label = "while_condition+"@ + sfx[1];
            let j = (2 + c1.len()) as int;
            let t = j + 1 + c2.len();
            let tested = run(m, code.subrange(t, t + 2));
            &&& code.len() == t + 3
            &&& jump(m, code[0]) == Some(Some(condition_label))
            &&& code[1] == InstructionV::ILabel(body_label)
            &&& code.subrange(2, j) == c1
            &&& code[j] == InstructionV::ILabel(condition_label)
            &&& code.subrange(j + 1, t) == c2
            &&& tested is Some
            &&& tested.unwrap().stack == below
            &&& jump(tested.unwrap(), code[t + 2]) == Some(if v != 0 { Some(body_label) } else { None::<Seq<char>> })
            &&& body_label != condition_label
        }),
{
    let code = spec_compile_statement(Statement::While { condition, body }, function_name, env, data, sfx).unwrap().0;
    let nb = spec_block_label_count(body@) as int;
    let (c1, d1) = spec_compile_block(body@, function_name, env, data, sfx.subrange(2, 2 + nb)).unwrap();
    let c2 = spec_compile_expression(condition, env, d1, ExpressionResult::Value).unwrap().0;
    let j = (2 + c1.len()) as int;
    let t = j + 1 + c2.len();
    let test = seq![InstructionV::Pop(OperandV::Register(Register::R14)), InstructionV::Cmp(OperandV::Register(Register::R14), OperandV::Immediate(ImmediateValueV::Literal(0)))];
    assert(code.subrange(t, t + 2) =~= test);
    lemma_test_value(m, below, v);
    assert(code.subrange(2, j) =~= c1);
    assert(code.subrange(j + 1, t) =~= c2);
    let body_label = "while_body+"@ + sfx[0];
    let condition_label = "while_condition+"@ + sfx[1];
    reveal_strlit("while_body+");
    reveal_strlit("while_condition+");
    assert(body_label[6] != condition_label[6]);
}

/// The register numbers the assembler encodes are the processor manual's: RAX 0, RCX 1,
/// RDX 2, RBX 3, RSP 4, RBP 5, RSI 6, RDI 7, R8 to R15 8 to 15, for the 64-bit registers,
/// their 32-bit halves and their low bytes alike.
pub proof fn lemma_register_numbers(r: Register)
    ensures
        register_slot(r) matches Some((k, _)) ==> spec_reg_bits(r) == k,
        reg64(OperandV::Register(r)) matches Some(k) ==> spec_reg_bits(spec_reg64_to_reg32(r)) == k,
{
}


/// Running code whose first instruction takes the machine to `m1` is running the rest from `m1`.
proof fn lemma_run_cons(m: Machine, code: Seq<InstructionV>, m1: Machine)
    requires
        code.len() > 0,
        step(m, code[0]) == Some(m1),
    ensures
        run(m, code) == run(m1, code.drop_first()),
{
    reveal(run);
}

/// Running no code leaves the machine as it is.
proof fn lemma_run_empty(m: Machine, code: Seq<InstructionV>)
    requires
        code.len() == 0,
    ensures
        run(m, code) == Some(m),
{
    reveal(run);
}

/// A number wrapped into a word, plus another, wraps to what the plain sum wraps to.
proof fn lemma_word_add(x: int, y: int)
    ensures
        word(word(x) + y) == word(x + y),
        word(x) as int == x % word_range(),
{
    let r = word_range();
    assert(0 <= x % r < r);
    vstd::arithmetic::div_mod::lemma_mod_add_multiples_vanish(x % r, r);
    vstd::arithmetic::div_mod::lemma_small_mod((x % r) as nat, r as nat);
    assert(word(x) as int == x % r);
    vstd::arithmetic::div_mod::lemma_small_mod(word(x) as nat, r as nat);
    let z = word(x) as int + y;
    assert(z % r == (x + y) % r) by {
        vstd::arithmetic::div_mod::lemma_add_mod_noop(word(x) as int, y, r);
        vstd::arithmetic::div_mod::lemma_add_mod_noop(x, y, r);
    }
}

/// The code compiled for a local variable, one at `offset` from the frame pointer (RBP,
/// register 5): for its value it pushes the word stored at that address, for its address
/// (the left side of an assignment, `&`) it pushes the address itself. Registers other
/// than R14 and memory are left as they were.
#[verifier::spinoff_prover]
pub proof fn lemma_local_variable_code_meaning(m: Machine, offset: i32)
    ensures
        run(m, spec_compile_local_variable(offset, ExpressionResult::Value)) == Some(
            Machine { stack: m.stack.push(m.mem[word(m.regs[5] + offset) as int]), ..m },
        ),
        run(m, spec_compile_local_variable(offset, ExpressionResult::Adress)) is Some,
        run(m, spec_compile_local_variable(offset, ExpressionResult::Adress)).unwrap().stack == m.stack.push(
            word(m.regs[5] + offset),
        ),
        run(m, spec_compile_local_variable(offset, ExpressionResult::Adress)).unwrap().mem == m.mem,
        run(m, spec_compile_local_variable(offset, ExpressionResult::Adress)).unwrap().regs[5] == m.regs[5],
{
    reveal(step);
    let value = spec_compile_local_variable(offset, ExpressionResult::Value);
    let m1 = Machine { stack: m.stack.push(m.mem[word(m.regs[5] + offset) as int]), ..m };
    assert(step(m, value[0]) == Some(m1));
    lemma_run_cons(m, value, m1);
    lemma_run_empty(m1, value.drop_first());
    let addr = spec_compile_local_variable(offset, ExpressionResult::Adress);
    let a = word(m.regs[5] + offset);
    let m2 = Machine { regs: m.regs.insert(14, a), ..m };
    assert(step(m, addr[0]) == Some(m2));
    let m3 = Machine { stack: m.stack.push(a), ..m2 };
    assert(step(m2, addr[1]) == Some(m3));
    lemma_run_cons(m, addr, m2);
    lemma_run_cons(m2, addr.drop_first(), m3);
    lemma_run_empty(m3, addr.drop_first().drop_first());
}

/// The code compiled for `*` on a pointer, for its value, is the pointer's code and then
/// code that takes the address the pointer's code left on the stack and pushes the word
/// stored there.
#[verifier::spinoff_prover]
#[verifier::rlimit(40)]
pub proof fn lemma_dereference_code_meaning(
    e: ExprType,
    env: Seq<(String, i32)>,
    data: DataView,
    m: Machine,
    below: Seq<u64>,
    a: u64,
)
    requires
        e.0 matches TypedExpression::UnaryOp(UnaryOperator::Dereference, _),
        spec_compile_expression(e, env, data, ExpressionResult::Value) is Some,
        m.stack == below.push(a),
    ensures
        ({
            let code = spec_compile_expression(e, env, data, ExpressionResult::Value).unwrap().0;
            let c = spec_compile_expression(*e.0->UnaryOp_1, env, data, ExpressionResult::Value).unwrap().0;
            &&& spec_compile_expression(*e.0->UnaryOp_1, env, data, ExpressionResult::Value) is Some
            &&& code.len() >= c.len()
            &&& code.subrange(0, c.len() as int) == c
            &&& run(m, code.skip(c.len() as int)) is Some
            &&& run(m, code.skip(c.len() as int)).unwrap().stack == below.push(m.mem[a as int])
        }),
{
    reveal(spec_compile_expression);
    reveal(step);
    let operand = *e.0->UnaryOp_1;
    let code = spec_compile_expression(e, env, data, ExpressionResult::Value).unwrap().0;
    assert(spec_compile_expression(e, env, data, ExpressionResult::Value) == spec_compile_unary_operator(e, env, data, ExpressionResult::Value));
    let c = spec_compile_expression(operand, env, data, ExpressionResult::Value).unwrap().0;
    let pop14 = InstructionV::Pop(OperandV::Register(Register::R14));
    let push = InstructionV::Push(OperandV::Indirect(Register::R14));
    assert(code == c + seq![pop14, push]);
    assert(code.subrange(0, c.len() as int) =~= c);
    let tail = code.skip(c.len() as int);
    assert(tail =~= seq![pop14, push]);
    assert(m.stack.last() == a && m.stack.drop_last() =~= below);
    let m1 = Machine { regs: m.regs.insert(14, a), stack: below, ..m };
    assert(step(m, tail[0]) == Some(m1));
    let m2 = Machine { stack: below.push(m.mem[a as int]), ..m1 };
    assert(step(m1, tail[1]) == Some(m2));
    lemma_run_cons(m, tail, m1);
    lemma_run_cons(m1, tail.drop_first(), m2);
    lemma_run_empty(m2, tail.drop_first().drop_first());
}

/// The code compiled for `=` to an 8-byte place takes the place's address and the value
/// off the stack (the address below the value), stores the value at the address, and
/// leaves the value on the stack as the assignment's own value.
#[verifier::spinoff_prover]
#[verifier::rlimit(40)]
pub proof fn lemma_assignment_code_meaning(
    operand1_type: Type,
    type_: Type,
    result: ExpressionResult,
    m: Machine,
    below: Seq<u64>,
    place: u64,
    v: u64,
)
    requires
        spec_type_size_heap(operand1_type) == 8,
        m.stack == below.push(place).push(v),
    ensures
        spec_binary_operator_tail(Operator::Assignment, operand1_type, type_, result) is Some,
        run(m, spec_binary_operator_tail(Operator::Assignment, operand1_type, type_, result).unwrap()) is Some,
        run(m, spec_binary_operator_tail(Operator::Assignment, operand1_type, type_, result).unwrap()).unwrap().mem
            == m.mem.insert(place as int, v),
        run(m, spec_binary_operator_tail(Operator::Assignment, operand1_type, type_, result).unwrap()).unwrap().stack
            == below.push(v),
{
    reveal(step);
    let code = spec_binary_operator_tail(Operator::Assignment, operand1_type, type_, result).unwrap();
    assert(m.stack.last() == v && m.stack.drop_last() =~= below.push(place));
    let m1 = Machine { regs: m.regs.insert(15, v), stack: below.push(place), ..m };
    assert(step(m, code[0]) == Some(m1));
    assert(m1.stack.last() == place && m1.stack.drop_last() =~= below);
    let m2 = Machine { regs: m1.regs.insert(14, place), stack: below, ..m1 };
    assert(step(m1, code[1]) == Some(m2));
    let m3 = Machine { mem: m.mem.insert(place as int, v), ..m2 };
    assert(step(m2, code[2]) == Some(m3));
    let m4 = Machine { stack: below.push(v), ..m3 };
    assert(step(m3, code[3]) == Some(m4));
    lemma_run_cons(m, code, m1);
    lemma_run_cons(m1, code.drop_first(), m2);
    lemma_run_cons(m2, code.drop_first().drop_first(), m3);
    lemma_run_cons(m3, code.drop_first().drop_first().drop_first(), m4);
    lemma_run_empty(m4, code.drop_first().drop_first().drop_first().drop_first());
}

/// The register steps of a subscript into 8-byte elements: index and base popped, the
/// index scaled by 8 and the base added, the result left in R15.
#[verifier::spinoff_prover]
#[verifier::rlimit(40)]
proof fn lemma_subscript_steps(m: Machine, below: Seq<u64>, base: u64, index: u64)
    requires
        m.stack == below.push(base).push(index),
    ensures
        ({
            let head = seq![
                InstructionV::Pop(reg(Register::R15)),
                InstructionV::Pop(reg(Register::R14)),
                InstructionV::Mov(reg(Register::R13), lit(8)),
                InstructionV::IMul(reg(Register::R15), reg(Register::R13)),
                InstructionV::Add(reg(Register::R15), reg(Register::R14)),
            ];
            &&& run(m, head) is Some
            &&& run(m, head).unwrap().stack == below
            &&& run(m, head).unwrap().mem == m.mem
            &&& run(m, head).unwrap().regs[15] == word(signed(index) * 8 + base)
        }),
{
    let head = seq![
        InstructionV::Pop(reg(Register::R15)),
        InstructionV::Pop(reg(Register::R14)),
        InstructionV::Mov(reg(Register::R13), lit(8)),
        InstructionV::IMul(reg(Register::R15), reg(Register::R13)),
        InstructionV::Add(reg(Register::R15), reg(Register::R14)),
    ];
    assert(m.stack.last() == index && m.stack.drop_last() =~= below.push(base));
    let m1 = Machine { regs: m.regs.insert(15, index), stack: below.push(base), ..m };
    assert(step(m, head[0]) == Some(m1)) by { reveal(step); }
    assert(m1.stack.last() == base && m1.stack.drop_last() =~= below);
    let m2 = Machine { regs: m1.regs.insert(14, base), stack: below, ..m1 };
    assert(step(m1, head[1]) == Some(m2)) by { reveal(step); }
    assert(word(8) == 8u64 && signed(8u64) == 8);
    let m3 = Machine { regs: m2.regs.insert(13, 8u64), ..m2 };
    assert(step(m2, head[2]) == Some(m3)) by { reveal(step); }
    let scaled = word(signed(index) * 8);
    let m4 = Machine { regs: m3.regs.insert(15, scaled), ..m3 };
    assert(m3.regs[13] == 8u64 && m3.regs[15] == index);
    assert(step(m3, head[3]) == Some(m4)) by { reveal(step); }
    lemma_word_add(signed(index) * 8, base as int);
    let m5 = Machine { regs: m4.regs.insert(15, word(signed(index) * 8 + base)), ..m4 };
    assert(m4.regs[15] == scaled && m4.regs[14] == base);
    assert(step(m4, head[4]) == Some(m5)) by { reveal(step); }
    lemma_run_cons(m, head, m1);
    lemma_run_cons(m1, head.drop_first(), m2);
    lemma_run_cons(m2, head.drop_first().drop_first(), m3);
    lemma_run_cons(m3, head.drop_first().drop_first().drop_first(), m4);
    lemma_run_cons(m4, head.drop_first().drop_first().drop_first().drop_first(), m5);
    lemma_run_empty(m5, head.drop_first().drop_first().drop_first().drop_first().drop_first());
}

/// The code compiled for a subscript `p[i]` into 8-byte elements takes the base address
/// and the index off the stack (the base below the index) and pushes the element at
/// `base + 8 * i` (the index read as a signed number), or, where the subscript is the place
/// of an assignment, that element's address.
#[verifier::spinoff_prover]
#[verifier::rlimit(40)]
pub proof fn lemma_subscript_code_meaning(
    operand1_type: Type,
    type_: Type,
    result: ExpressionResult,
    m: Machine,
    below: Seq<u64>,
    base: u64,
    index: u64,
)
    requires
        spec_type_size_heap(type_) == 8,
        m.stack == below.push(base).push(index),
    ensures
        ({
            let tail = spec_binary_operator_tail(Operator::ArraySubScript, operand1_type, type_, result);
            let element = word(base + 8 * signed(index));
            &&& tail is Some
            &&& run(m, tail.unwrap()) is Some
            &&& run(m, tail.unwrap()).unwrap().stack == below.push(
                if result == ExpressionResult::Value { m.mem[element as int] } else { element },
            )
        }),
{
    let code = spec_binary_operator_tail(Operator::ArraySubScript, operand1_type, type_, result).unwrap();
    let element = word(base + 8 * signed(index));
    let head = seq![
        InstructionV::Pop(reg(Register::R15)),
        InstructionV::Pop(reg(Register::R14)),
        InstructionV::Mov(reg(Register::R13), lit(8)),
        InstructionV::IMul(reg(Register::R15), reg(Register::R13)),
        InstructionV::Add(reg(Register::R15), reg(Register::R14)),
    ];
    let last = if result == ExpressionResult::Value {
        InstructionV::Push(OperandV::Indirect(Register::R15))
    } else {
        InstructionV::Push(reg(Register::R15))
    };
    assert(code =~= head + seq![last]);
    lemma_subscript_steps(m, below, base, index);
    let m5 = run(m, head).unwrap();
    assert(signed(index) * 8 + base == base + 8 * signed(index));
    assert(m5.regs[15] == element);
    let m6 = Machine { stack: below.push(if result == ExpressionResult::Value { m.mem[element as int] } else { element }), ..m5 };
    assert(step(m5, last) == Some(m6)) by {
        reveal(step);
    }
    lemma_run_one(m5, last);
    lemma_run_append(m, head, seq![last]);
}


/// The code compiled for `return e` is the code of `e` and then code that takes the value
/// `e` left on the stack into RAX, the register a caller reads the result from, and jumps
/// to the function's return label, where `lemma_function_frame` shows the frame torn
/// down and the return.
#[verifier::spinoff_prover]
#[verifier::rlimit(40)]
pub proof fn lemma_return_control_flow(
    expression: ExprType,
    function_name: Seq<char>,
    env: Seq<(String, i32)>,
    data: DataView,
    sfx: Seq<Seq<char>>,
    m: Machine,
    below: Seq<u64>,
    v: u64,
)
    requires
        spec_compile_statement(Statement::Return(expression), function_name, env, data, sfx) is Some,
        m.stack == below.push(v),
    ensures
        ({
            let code = spec_compile_statement(Statement::Return(expression), function_name, env, data, sfx).unwrap().0;
            let c = spec_compile_expression(expression, env, data, ExpressionResult::Value).unwrap().0;
            let k = c.len() as int;
            let popped = run(m, code.subrange(k, k + 1));
            &&& spec_compile_expression(expression, env, data, ExpressionResult::Value) is Some
            &&& code.len() == k + 2
            &&& code.subrange(0, k) == c
            &&& popped is Some
            &&& popped.unwrap().regs[0] == v
            &&& popped.unwrap().stack == below
            &&& jump(popped.unwrap(), code[k + 1]) == Some(Some("return+"@ + function_name))
        }),
{
    let code = spec_compile_statement(Statement::Return(expression), function_name, env, data, sfx).unwrap().0;
    let c = spec_compile_expression(expression, env, data, ExpressionResult::Value).unwrap().0;
    let k = c.len() as int;
    let pop = InstructionV::Pop(OperandV::Register(Register::RAX));
    assert(code.subrange(0, k) =~= c);
    assert(code.subrange(k, k + 1) =~= seq![pop]);
    assert(m.stack.last() == v && m.stack.drop_last() =~= below);
    let m1 = Machine { regs: m.regs.insert(0, v), stack: below, ..m };
    assert(step(m, pop) == Some(m1)) by {
        reveal(step);
    }
    lemma_run_one(m, pop);
}


/// The code compiled for a variable pushes its value, or for its address (the place of
/// an assignment, `&`) the address: a variable of the function's environment lives at its
/// offset from the frame pointer (RBP, register 5), any other at the data label
/// `globalvar:` and its name. The code changes no memory.
#[verifier::spinoff_prover]
#[verifier::rlimit(40)]
pub proof fn lemma_variable_code_meaning(
    identifier: Seq<char>,
    env: Seq<(String, i32)>,
    data: DataView,
    result: ExpressionResult,
    m: Machine,
)
    requires
        spec_compile_variable(identifier, env, data, result) is Some,
    ensures
        ({
            let code = spec_compile_variable(identifier, env, data, result).unwrap();
            let place = match lookup(env, identifier) {
                Some(offset) => word(m.regs[5] + offset),
                None => m.data_at["globalvar:"@ + identifier],
            };
            &&& run(m, code) is Some
            &&& run(m, code).unwrap().stack == m.stack.push(
                if result == ExpressionResult::Value { m.mem[place as int] } else { place },
            )
            &&& run(m, code).unwrap().mem == m.mem
        }),
{
    let code = spec_compile_variable(identifier, env, data, result).unwrap();
    match lookup(env, identifier) {
        Some(offset) => {
            lemma_local_variable_code_meaning(m, offset);
        },
        None => {
            let label = "globalvar:"@ + identifier;
            let a = m.data_at[label];
            if result == ExpressionResult::Value {
                let m1 = Machine { regs: m.regs.insert(15, a), ..m };
                assert(step(m, code[0]) == Some(m1)) by {
                    reveal(step);
                }
                let m2 = Machine { stack: m.stack.push(m.mem[a as int]), ..m1 };
                assert(step(m1, code[1]) == Some(m2)) by {
                    reveal(step);
                }
                lemma_run_cons(m, code, m1);
                lemma_run_cons(m1, code.drop_first(), m2);
                lemma_run_empty(m2, code.drop_first().drop_first());
            } else {
                let m1 = Machine { stack: m.stack.push(a), ..m };
                assert(step(m, code[0]) == Some(m1)) by {
                    reveal(step);
                }
                lemma_run_cons(m, code, m1);
                lemma_run_empty(m1, code.drop_first());
            }
        },
    }
}


/// The code compiled for an expression used as a statement is the expression's code and
/// then an instruction that drops the value it left on the stack.
#[verifier::spinoff_prover]
pub proof fn lemma_expression_statement_discards(
    expression: ExprType,
    function_name: Seq<char>,
    env: Seq<(String, i32)>,
    data: DataView,
    sfx: Seq<Seq<char>>,
    m: Machine,
    below: Seq<u64>,
    v: u64,
)
    requires
        spec_compile_statement(Statement::Expression(expression), function_name, env, data, sfx) is Some,
        m.stack == below.push(v),
    ensures
        ({
            let code = spec_compile_statement(Statement::Expression(expression), function_name, env, data, sfx).unwrap().0;
            let c = spec_compile_expression(expression, env, data, ExpressionResult::Value).unwrap().0;
            let k = c.len() as int;
            &&& spec_compile_expression(expression, env, data, ExpressionResult::Value) is Some
            &&& code.len() == k + 1
            &&& code.subrange(0, k) == c
            &&& run(m, code.skip(k)) == Some(Machine { stack: below, ..m })
        }),
{
    let code = spec_compile_statement(Statement::Expression(expression), function_name, env, data, sfx).unwrap().0;
    let c = spec_compile_expression(expression, env, data, ExpressionResult::Value).unwrap().0;
    let k = c.len() as int;
    assert(code.subrange(0, k) =~= c);
    let tail = code.skip(k);
    assert(tail =~= seq![InstructionV::Add(reg(Register::RSP), lit(8))]);
    assert(m.stack.subrange(0, m.stack.len() - 1) =~= below);
    assert(step(m, tail[0]) == Some(Machine { stack: below, ..m })) by {
        reveal(step);
    }
    lemma_run_one(m, tail[0]);
}

/// The code compiled for a call pushes the arguments, calls the function's label, and,
/// once the function has returned with its result in RAX, drops the argument words it
/// pushed and pushes the result in their place.
#[verifier::spinoff_prover]
#[verifier::rlimit(40)]
pub proof fn lemma_call_code_meaning(
    e: ExprType,
    env: Seq<(String, i32)>,
    data: DataView,
    m: Machine,
    below: Seq<u64>,
    arguments: Seq<u64>,
)
    requires
        e.0 is FunctionCall,
        spec_compile_function_call(e, env, data) is Some,
        arguments.len() == e.0->FunctionCall_1@.len(),
        m.stack == below + arguments,
    ensures
        ({
            let code = spec_compile_function_call(e, env, data).unwrap().0;
            let k = code.len() - 3;
            &&& code.len() >= 3
            &&& code[k] == InstructionV::Call(label_operand(e.0->FunctionCall_0@, SegmentType::Text))
            &&& run(m, code.skip(k + 1)) is Some
            &&& run(m, code.skip(k + 1)).unwrap().stack == below.push(m.regs[0])
        }),
{
    let code = spec_compile_function_call(e, env, data).unwrap().0;
    let n = e.0->FunctionCall_1@.len();
    let k = code.len() - 3;
    let drop = InstructionV::Add(reg(Register::RSP), lit((n * 8) as i64));
    let push = InstructionV::Push(reg(Register::RAX));
    assert(code.skip(k + 1) =~= seq![drop, push]);
    assert(((n * 8) as i64) as int == n * 8);
    assert((n * 8) % 8 == 0 && (n * 8) / 8 == n) by (nonlinear_arith)
        requires
            n >= 0,
    ;
    assert(m.stack.subrange(0, m.stack.len() - n) =~= below);
    let m1 = Machine { stack: below, ..m };
    assert(step(m, drop) == Some(m1)) by {
        reveal(step);
    }
    let m2 = Machine { stack: below.push(m.regs[0]), ..m1 };
    assert(step(m1, push) == Some(m2)) by {
        reveal(step);
    }
    lemma_run_cons(m, code.skip(k + 1), m1);
    lemma_run_cons(m1, code.skip(k + 1).drop_first(), m2);
    lemma_run_empty(m2, code.skip(k + 1).drop_first().drop_first());
}

} // verus!
