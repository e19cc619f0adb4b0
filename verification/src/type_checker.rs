//! Type checking: every expression of a parsed program is annotated with its type,
//! or the first violation of the typing rules is reported.
use vstd::prelude::*;

use crate::abstract_syntax_tree::{
    copy_type, type_equals, Expr, ExprType, Expression, Function, Literal, Operator, Program,
    Statement, Type, TypedExpression, UnaryOperator, Variable,
};
use crate::string_map::StrMap;

verus! {

#[derive(Debug)]
pub enum TypeError {
    DuplicateVariable(String),
    UndefinedVariable(String),
    UndefinedFunction(String),
    UndefinedBuiltinFunction(String),
    WrongArgumentAmount(String),
    /// Actual, expected
    WrongArgument(Type, Type, String),
    WrongReturn(Type),
    WrongCondition(Type),
    WrongOperand(Type, Type, Operator),
    WrongUnaryOperand(Type, UnaryOperator),
    WrongCast(Type, Type),
}

/// The outcome of checking a piece of a program: its result, the first type error, or
/// `None` where the checker cannot go on (a `syscall` given no arguments at all).
pub type Checked<T> = Option<Result<T, TypeError>>;

/// The variables in scope, by name.
pub type Scope = Map<Seq<char>, Type>;

/// The functions of a program, by name: return type and argument types.
pub type Signatures = Map<Seq<char>, (Type, Seq<Type>)>;

/// The table of functions as its signatures.
pub open spec fn signatures_of(functions: StrMap<(Type, Vec<Type>)>) -> Signatures {
    signatures_of_map(functions@)
}

pub open spec fn signatures_of_map(m: Map<Seq<char>, (Type, Vec<Type>)>) -> Signatures {
    m.map_values(|v: (Type, Vec<Type>)| (v.0, v.1@))
}

/// The type of a literal.
pub open spec fn literal_type(l: Literal) -> Type {
    match l {
        Literal::Bool(_) => Type::Bool,
        Literal::Int(_) => Type::Int,
        Literal::String(_) => Type::Pointer(Box::new(Type::Char)),
    }
}

/// The type of a binary operation on operands of types `t1` and `t2`.
pub open spec fn binary_type(op: Operator, t1: Type, t2: Type) -> Result<Type, TypeError> {
    match op {
        Operator::Addition | Operator::Subtraction | Operator::Multiplication | Operator::Division
        | Operator::Modulo => if t1 == Type::Int && t2 == Type::Int {
            Ok(Type::Int)
        } else {
            Err(TypeError::WrongOperand(t1, t2, op))
        },
        Operator::And | Operator::Or => if t1 == Type::Bool && t2 == Type::Bool {
            Ok(Type::Bool)
        } else {
            Err(TypeError::WrongOperand(t1, t2, op))
        },
        Operator::LessEq | Operator::Less | Operator::GreaterEquals | Operator::Greater => if t1
            == Type::Int && t2 == Type::Int {
            Ok(Type::Bool)
        } else {
            Err(TypeError::WrongOperand(t1, t2, op))
        },
        Operator::Equals | Operator::NotEqual => if t1 == t2 {
            Ok(Type::Bool)
        } else {
            Err(TypeError::WrongOperand(t1, t2, op))
        },
        Operator::Assignment => if t1 == t2 {
            Ok(t2)
        } else {
            Err(TypeError::WrongOperand(t1, t2, op))
        },
        Operator::ArraySubScript => match t1 {
            Type::Pointer(inner) => if t2 == Type::Int {
                Ok(*inner)
            } else {
                Err(TypeError::WrongOperand(t1, t2, op))
            },
            _ => Err(TypeError::WrongOperand(t1, t2, op)),
        },
    }
}

/// How a binary operation checks, given the types its two operands check to:
/// `==` and `!=` accept two operands of the same type, whatever it is, and give `Bool`;
/// `+ - * / %` accept two `Int`s and give `Int`; `< <= > >=` accept two `Int`s and give
/// `Bool`; `&&` and `||` accept two `Bool`s and give `Bool`; `=` accepts a value of the
/// assigned place's type and gives that type; a subscript accepts a pointer and an `Int`
/// and gives the pointed-to type. Any other pair of types is the error naming both types
/// and the operator.
pub proof fn lemma_binary_operator_typing(op: Operator, a: Expr, b: Expr, vars: Scope, functions: Signatures, t1: Type, t2: Type)
    requires
        spec_check_expression(a, vars, functions) == Some(Ok::<Type, TypeError>(t1)),
        spec_check_expression(b, vars, functions) == Some(Ok::<Type, TypeError>(t2)),
    ensures
        ({
            let r = spec_check_expression(Expr(Expression::BinaryOp(op, Box::new(a), Box::new(b))), vars, functions);
            let wrong = Some(Err::<Type, TypeError>(TypeError::WrongOperand(t1, t2, op)));
            &&& (op == Operator::Equals || op == Operator::NotEqual) ==> r == (if t1 == t2 { Some(Ok::<Type, TypeError>(Type::Bool)) } else { wrong })
            &&& (op == Operator::Addition || op == Operator::Subtraction || op == Operator::Multiplication
                || op == Operator::Division || op == Operator::Modulo) ==> r == (if t1 == Type::Int && t2 == Type::Int {
                Some(Ok::<Type, TypeError>(Type::Int))
            } else {
                wrong
            })
            &&& (op == Operator::Less || op == Operator::LessEq || op == Operator::Greater || op == Operator::GreaterEquals)
                ==> r == (if t1 == Type::Int && t2 == Type::Int { Some(Ok::<Type, TypeError>(Type::Bool)) } else { wrong })
            &&& (op == Operator::And || op == Operator::Or) ==> r == (if t1 == Type::Bool && t2 == Type::Bool {
                Some(Ok::<Type, TypeError>(Type::Bool))
            } else {
                wrong
            })
            &&& op == Operator::Assignment ==> r == (if t1 == t2 { Some(Ok::<Type, TypeError>(t1)) } else { wrong })
            &&& op == Operator::ArraySubScript ==> r == (if t1 is Pointer && t2 == Type::Int {
                Some(Ok::<Type, TypeError>(*t1->Pointer_0))
            } else {
                wrong
            })
        }),
{
}

/// How literals and unary operations check: a number is an `Int`, `True`/`False` a
/// `Bool`, a string a pointer to `Char`; `!` takes a `Bool` to a `Bool`; `*` takes a
/// pointer to the type it points to; `&` takes a value of any type to a pointer to it.
/// Any other operand is the error naming its type and the operator.
pub proof fn lemma_literal_and_unary_typing(l: Literal, op: UnaryOperator, a: Expr, vars: Scope, functions: Signatures, t: Type)
    requires
        spec_check_expression(a, vars, functions) == Some(Ok::<Type, TypeError>(t)),
    ensures
        spec_check_expression(Expr(Expression::Literal(l)), vars, functions) == Some(Ok::<Type, TypeError>(match l {
            Literal::Int(_) => Type::Int,
            Literal::Bool(_) => Type::Bool,
            Literal::String(_) => Type::Pointer(Box::new(Type::Char)),
        })),
        ({
            let r = spec_check_expression(Expr(Expression::UnaryOp(op, Box::new(a))), vars, functions);
            let wrong = Some(Err::<Type, TypeError>(TypeError::WrongUnaryOperand(t, op)));
            &&& op == UnaryOperator::Negation ==> r == (if t == Type::Bool { Some(Ok::<Type, TypeError>(Type::Bool)) } else { wrong })
            &&& op == UnaryOperator::Dereference ==> r == (if t is Pointer { Some(Ok::<Type, TypeError>(*t->Pointer_0)) } else { wrong })
            &&& op == UnaryOperator::AddressOf ==> r == Some(Ok::<Type, TypeError>(Type::Pointer(Box::new(t))))
        }),
{
}

/// How variables, casts and calls check: a variable in scope has its declared type, one
/// not in scope is `UndefinedVariable`; a cast turns a `Bool` into an `Int` or a `Char`
/// and a `Char` into an `Int`, anything else is `WrongCast`; a call of an undefined
/// function is `UndefinedFunction`, one with a wrong number of arguments
/// `WrongArgumentAmount`, one whose argument types are those declared has the declared
/// return type.
pub proof fn lemma_variable_cast_call_typing(e: Expr, vars: Scope, functions: Signatures)
    ensures
        e.0 matches Expression::Var(id) ==> spec_check_expression(e, vars, functions) == (if vars.contains_key(id@) {
            Some(Ok::<Type, TypeError>(vars[id@]))
        } else {
            Some(Err::<Type, TypeError>(TypeError::UndefinedVariable(id)))
        }),
        e.0 matches Expression::Cast(target, a) ==> (spec_check_expression(*a, vars, functions) matches Some(Ok(t))
            ==> spec_check_expression(e, vars, functions) == (if (target == Type::Int && (t == Type::Bool || t == Type::Char))
                || (target == Type::Char && t == Type::Bool) {
                Some(Ok::<Type, TypeError>(target))
            } else {
                Some(Err::<Type, TypeError>(TypeError::WrongCast(target, t)))
            })),
        e.0 matches Expression::FunctionCall(id, args) ==> (spec_check_arguments(args@, vars, functions) matches Some(Ok(ts))
            ==> {
                let r = spec_check_expression(e, vars, functions);
                &&& !functions.contains_key(id@) ==> r == Some(Err::<Type, TypeError>(TypeError::UndefinedFunction(id)))
                &&& functions.contains_key(id@) && ts.len() != functions[id@].1.len()
                    ==> r == Some(Err::<Type, TypeError>(TypeError::WrongArgumentAmount(id)))
                &&& functions.contains_key(id@) && ts == functions[id@].1 ==> r == Some(Ok::<Type, TypeError>(functions[id@].0))
            }),
{
    if let Expression::FunctionCall(id, args) = e.0 {
        if let Some(Ok(ts)) = spec_check_arguments(args@, vars, functions) {
            if functions.contains_key(id@) && ts == functions[id@].1 {
                lemma_no_mismatch(ts, 0);
            }
        }
    }
}

/// Equal argument types have no mismatch.
proof fn lemma_no_mismatch(ts: Seq<Type>, i: int)
    requires
        0 <= i,
    ensures
        first_mismatch(ts, ts, i) is None,
    decreases ts.len() - i,
{
    if i < ts.len() {
        lemma_no_mismatch(ts, i + 1);
    }
}

/// Whether a block checks without error.
pub open spec fn block_checks(b: Seq<Statement<Expr>>, ret: Type, vars: Scope, functions: Signatures) -> bool {
    spec_check_block(b, ret, vars, functions) matches Some(Ok(_))
}

/// How statements check: a declaration of a name not yet in scope adds it with its type,
/// one of a name in scope is `DuplicateVariable`; the condition of an `if` or a `while`
/// must be a `Bool`, any other type is `WrongCondition`, and what the branches or the
/// body declare is gone after the statement; a `return` whose value has the function's
/// return type checks, any other is `WrongReturn`; an expression statement checks when
/// its expression does, and declares nothing.
pub proof fn lemma_statement_typing(s: Statement<Expr>, ret: Type, vars: Scope, functions: Signatures)
    ensures
        s matches Statement::Declaration(v) ==> spec_check_statement(s, ret, vars, functions) == (if vars.contains_key(v.identifier@) {
            Some(Err::<Scope, TypeError>(TypeError::DuplicateVariable(v.identifier)))
        } else {
            Some(Ok::<Scope, TypeError>(vars.insert(v.identifier@, v.type_)))
        }),
        s matches Statement::Expression(e) ==> (spec_check_expression(e, vars, functions) is Some
            && spec_check_expression(e, vars, functions)->0 is Ok
            ==> spec_check_statement(s, ret, vars, functions) == Some(Ok::<Scope, TypeError>(vars))),
        s matches Statement::Return(e) ==> (spec_check_expression(e, vars, functions) matches Some(Ok(t))
            ==> spec_check_statement(s, ret, vars, functions) == (if t == ret {
                Some(Ok::<Scope, TypeError>(vars))
            } else {
                Some(Err::<Scope, TypeError>(TypeError::WrongReturn(t)))
            })),
        s matches Statement::If { condition, then_branch, else_branch } ==> (spec_check_expression(condition, vars, functions) matches Some(Ok(t))
            ==> {
                let r = spec_check_statement(s, ret, vars, functions);
                &&& t != Type::Bool ==> r == Some(Err::<Scope, TypeError>(TypeError::WrongCondition(t)))
                &&& t == Type::Bool && block_checks(then_branch@, ret, vars, functions)
                    && block_checks(else_branch@, ret, vars, functions) ==> r == Some(Ok::<Scope, TypeError>(vars))
            }),
        s matches Statement::While { condition, body } ==> (spec_check_expression(condition, vars, functions) matches Some(Ok(t))
            ==> {
                let r = spec_check_statement(s, ret, vars, functions);
                &&& t != Type::Bool ==> r == Some(Err::<Scope, TypeError>(TypeError::WrongCondition(t)))
                &&& t == Type::Bool && block_checks(body@, ret, vars, functions) ==> r == Some(Ok::<Scope, TypeError>(vars))
            }),
{
}

/// The type of a unary operation on an operand of type `t`.
pub open spec fn unary_type(op: UnaryOperator, t: Type) -> Result<Type, TypeError> {
    match op {
        UnaryOperator::Dereference => match t {
            Type::Pointer(inner) => Ok(*inner),
            _ => Err(TypeError::WrongUnaryOperand(t, op)),
        },
        UnaryOperator::AddressOf => Ok(Type::Pointer(Box::new(t))),
        UnaryOperator::Negation => if t == Type::Bool {
            Ok(Type::Bool)
        } else {
            Err(TypeError::WrongUnaryOperand(t, op))
        },
    }
}

/// The type of a cast to `target` of an operand of type `t`: bool to int or char, char to int.
pub open spec fn cast_type(target: Type, t: Type) -> Result<Type, TypeError> {
    if (target == Type::Int && t == Type::Bool) || (target == Type::Char && t == Type::Bool) || (
    target == Type::Int && t == Type::Char) {
        Ok(target)
    } else {
        Err(TypeError::WrongCast(target, t))
    }
}

/// The first position from `i` on where the actual argument type differs from the expected one.
pub open spec fn first_mismatch(actual: Seq<Type>, expected: Seq<Type>, i: int) -> Option<int>
    decreases actual.len() - i,
{
    if i < 0 || i >= actual.len() {
        None
    } else if actual[i] != expected[i] {
        Some(i)
    } else {
        first_mismatch(actual, expected, i + 1)
    }
}

/// The type of a call of function `id` with arguments of the given types.
pub open spec fn call_type(id: String, actual: Seq<Type>, functions: Signatures) -> Result<
    Type,
    TypeError,
> {
    if !functions.contains_key(id@) {
        Err(TypeError::UndefinedFunction(id))
    } else if actual.len() != functions[id@].1.len() {
        Err(TypeError::WrongArgumentAmount(id))
    } else {
        match first_mismatch(actual, functions[id@].1, 0) {
            Some(k) => Err(TypeError::WrongArgument(actual[k], functions[id@].1[k], id)),
            None => Ok(functions[id@].0),
        }
    }
}

/// The type of a `syscall` with arguments of the given types: the first, the call's
/// number, must be an int; the others may be anything.
pub open spec fn syscall_type(id: String, actual: Seq<Type>) -> Checked<Type> {
    if actual.len() == 0 {
        None
    } else if actual[0] != Type::Int {
        Some(Err(TypeError::WrongArgument(actual[0], Type::Int, id)))
    } else {
        Some(Ok(Type::Int))
    }
}

/// The type of an expression, or the first error in it, operands left to right.
pub open spec fn spec_check_expression(e: Expr, vars: Scope, functions: Signatures) -> Checked<Type>
    decreases e,
{
    match e.0 {
        Expression::Literal(l) => Some(Ok(literal_type(l))),
        Expression::Var(id) => if vars.contains_key(id@) {
            Some(Ok(vars[id@]))
        } else {
            Some(Err(TypeError::UndefinedVariable(id)))
        },
        Expression::BinaryOp(op, a, b) => match spec_check_expression(*a, vars, functions) {
            Some(Ok(t1)) => match spec_check_expression(*b, vars, functions) {
                Some(Ok(t2)) => Some(binary_type(op, t1, t2)),
                other => other,
            },
            other => other,
        },
        Expression::UnaryOp(op, a) => match spec_check_expression(*a, vars, functions) {
            Some(Ok(t)) => Some(unary_type(op, t)),
            other => other,
        },
        Expression::FunctionCall(id, args) => match spec_check_arguments(args@, vars, functions) {
            Some(Ok(ts)) => Some(call_type(id, ts, functions)),
            Some(Err(x)) => Some(Err(x)),
            None => None,
        },
        Expression::BuiltInFunctionCall(id, args) => if id@ != "syscall"@ {
            Some(Err(TypeError::UndefinedBuiltinFunction(id)))
        } else {
            match spec_check_arguments(args@, vars, functions) {
                Some(Ok(ts)) => syscall_type(id, ts),
                Some(Err(x)) => Some(Err(x)),
                None => None,
            }
        },
        Expression::Cast(target, a) => match spec_check_expression(*a, vars, functions) {
            Some(Ok(t)) => Some(cast_type(target, t)),
            other => other,
        },
    }
}

/// The types of a list of arguments, or the first error in them.
pub open spec fn spec_check_arguments(args: Seq<Expr>, vars: Scope, functions: Signatures) -> Checked<
    Seq<Type>,
>
    decreases args,
{
    if args.len() == 0 {
        Some(Ok(Seq::empty()))
    } else {
        match spec_check_arguments(args.drop_last(), vars, functions) {
            Some(Ok(ts)) => match spec_check_expression(args.last(), vars, functions) {
                Some(Ok(t)) => Some(Ok(ts.push(t))),
                Some(Err(x)) => Some(Err(x)),
                None => None,
            },
            other => other,
        }
    }
}

/// The types of annotated expressions.
pub open spec fn types_of(ts: Seq<ExprType>) -> Seq<Type> {
    ts.map_values(|t: ExprType| t.1)
}

/// `t` is `e` with each of its subexpressions annotated with the type that the rules give it.
pub open spec fn annotates(t: ExprType, e: Expr, vars: Scope, functions: Signatures) -> bool
    decreases t,
{
    &&& spec_check_expression(e, vars, functions) == Some(Ok::<Type, TypeError>(t.1))
    &&& match t.0 {
        TypedExpression::Literal(l) => e.0 == Expression::Literal(l),
        TypedExpression::Var(id) => e.0 == Expression::Var(id),
        TypedExpression::BinaryOp(op, a, b) => match e.0 {
            Expression::BinaryOp(op2, a2, b2) => op == op2 && annotates(*a, *a2, vars, functions)
                && annotates(*b, *b2, vars, functions),
            _ => false,
        },
        TypedExpression::UnaryOp(op, a) => match e.0 {
            Expression::UnaryOp(op2, a2) => op == op2 && annotates(*a, *a2, vars, functions),
            _ => false,
        },
        TypedExpression::FunctionCall(id, args) => match e.0 {
            Expression::FunctionCall(id2, args2) => id == id2 && annotates_all(
                args@,
                args2@,
                vars,
                functions,
            ),
            _ => false,
        },
        TypedExpression::BuiltInFunctionCall(id, args) => match e.0 {
            Expression::BuiltInFunctionCall(id2, args2) => id == id2 && annotates_all(
                args@,
                args2@,
                vars,
                functions,
            ),
            _ => false,
        },
        TypedExpression::Cast(target, a) => match e.0 {
            Expression::Cast(target2, a2) => target == target2 && annotates(*a, *a2, vars, functions),
            _ => false,
        },
    }
}

/// Each of `ts` annotates the expression at its position in `es`.
pub open spec fn annotates_all(ts: Seq<ExprType>, es: Seq<Expr>, vars: Scope, functions: Signatures) -> bool
    decreases ts,
{
    if ts.len() == 0 {
        es.len() == 0
    } else {
        &&& es.len() == ts.len()
        &&& annotates_all(ts.drop_last(), es.drop_last(), vars, functions)
        &&& annotates(ts.last(), es.last(), vars, functions)
    }
}

/// What checking a statement makes of the variables in scope, or the first error in it.
/// A declaration adds its variable; the branches and bodies of `if` and `while` are
/// checked in a copy of the scope, so what they declare is gone after them.
pub open spec fn spec_check_statement(s: Statement<Expr>, ret: Type, vars: Scope, functions: Signatures) -> Checked<
    Scope,
>
    decreases s,
{
    match s {
        Statement::Declaration(v) => if vars.contains_key(v.identifier@) {
            Some(Err(TypeError::DuplicateVariable(v.identifier)))
        } else {
            Some(Ok(vars.insert(v.identifier@, v.type_)))
        },
        Statement::Expression(e) => match spec_check_expression(e, vars, functions) {
            Some(Ok(_)) => Some(Ok(vars)),
            Some(Err(x)) => Some(Err(x)),
            None => None,
        },
        Statement::If { condition, then_branch, else_branch } => match spec_check_expression(
            condition,
            vars,
            functions,
        ) {
            Some(Ok(t)) => if t != Type::Bool {
                Some(Err(TypeError::WrongCondition(t)))
            } else {
                match spec_check_block(then_branch@, ret, vars, functions) {
                    Some(Ok(_)) => match spec_check_block(else_branch@, ret, vars, functions) {
                        Some(Ok(_)) => Some(Ok(vars)),
                        Some(Err(x)) => Some(Err(x)),
                        None => None,
                    },
                    Some(Err(x)) => Some(Err(x)),
                    None => None,
                }
            },
            Some(Err(x)) => Some(Err(x)),
            None => None,
        },
        Statement::While { condition, body } => match spec_check_expression(condition, vars, functions) {
            Some(Ok(t)) => if t != Type::Bool {
                Some(Err(TypeError::WrongCondition(t)))
            } else {
                match spec_check_block(body@, ret, vars, functions) {
                    Some(Ok(_)) => Some(Ok(vars)),
                    Some(Err(x)) => Some(Err(x)),
                    None => None,
                }
            },
            Some(Err(x)) => Some(Err(x)),
            None => None,
        },
        Statement::Return(e) => match spec_check_expression(e, vars, functions) {
            Some(Ok(t)) => if ret != t {
                Some(Err(TypeError::WrongReturn(t)))
            } else {
                Some(Ok(vars))
            },
            Some(Err(x)) => Some(Err(x)),
            None => None,
        },
    }
}

/// What checking statements one after the other makes of the variables in scope.
pub open spec fn spec_check_block(b: Seq<Statement<Expr>>, ret: Type, vars: Scope, functions: Signatures) -> Checked<
    Scope,
>
    decreases b,
{
    if b.len() == 0 {
        Some(Ok(vars))
    } else {
        match spec_check_block(b.drop_last(), ret, vars, functions) {
            Some(Ok(v1)) => spec_check_statement(b.last(), ret, v1, functions),
            other => other,
        }
    }
}

/// `ts` is `s` with its expressions annotated.
pub open spec fn annotates_statement(
    ts: Statement<ExprType>,
    s: Statement<Expr>,
    ret: Type,
    vars: Scope,
    functions: Signatures,
) -> bool
    decreases ts,
{
    &&& spec_check_statement(s, ret, vars, functions) matches Some(Ok(_))
    &&& match ts {
        Statement::Declaration(v) => s == Statement::<Expr>::Declaration(v),
        Statement::Expression(t) => match s {
            Statement::Expression(e) => annotates(t, e, vars, functions),
            _ => false,
        },
        Statement::If { condition: tc, then_branch: tt, else_branch: te } => match s {
            Statement::If { condition, then_branch, else_branch } => annotates(tc, condition, vars, functions)
                && annotates_block(tt@, then_branch@, ret, vars, functions) && annotates_block(
                te@,
                else_branch@,
                ret,
                vars,
                functions,
            ),
            _ => false,
        },
        Statement::While { condition: tc, body: tb } => match s {
            Statement::While { condition, body } => annotates(tc, condition, vars, functions)
                && annotates_block(tb@, body@, ret, vars, functions),
            _ => false,
        },
        Statement::Return(t) => match s {
            Statement::Return(e) => annotates(t, e, vars, functions),
            _ => false,
        },
    }
}

/// `tb` is the block `b` with its statements annotated, each in the scope that the
/// statements before it leave.
pub open spec fn annotates_block(
    tb: Seq<Statement<ExprType>>,
    b: Seq<Statement<Expr>>,
    ret: Type,
    vars: Scope,
    functions: Signatures,
) -> bool
    decreases tb,
{
    &&& spec_check_block(b, ret, vars, functions) matches Some(Ok(_))
    &&& tb.len() == b.len()
    &&& if tb.len() == 0 {
        true
    } else {
        &&& annotates_block(tb.drop_last(), b.drop_last(), ret, vars, functions)
        &&& match spec_check_block(b.drop_last(), ret, vars, functions) {
            Some(Ok(v1)) => annotates_statement(tb.last(), b.last(), ret, v1, functions),
            _ => false,
        }
    }
}

/// The scope of a function's body: the global variables and its arguments, or the first
/// argument whose name is already taken.
pub open spec fn spec_argument_scope(args: Seq<Variable>, globals: Scope) -> Result<Scope, TypeError>
    decreases args.len(),
{
    if args.len() == 0 {
        Ok(globals)
    } else {
        match spec_argument_scope(args.drop_last(), globals) {
            Ok(vars) => if vars.contains_key(args.last().identifier@) {
                Err(TypeError::DuplicateVariable(args.last().identifier))
            } else {
                Ok(vars.insert(args.last().identifier@, args.last().type_))
            },
            Err(x) => Err(x),
        }
    }
}

/// The scope of a function's body: when it can be formed, every argument is in it with
/// its declared type, every global variable is in it with its type, and nothing else is;
/// an argument named like a global variable or like an earlier argument makes it an error.
pub proof fn lemma_argument_scope(args: Seq<Variable>, globals: Scope)
    ensures
        spec_argument_scope(args, globals) is Ok ==> {
            let vars = spec_argument_scope(args, globals)->Ok_0;
            &&& forall|i: int| 0 <= i < args.len() ==> vars.contains_key(#[trigger] args[i].identifier@)
                && vars[args[i].identifier@] == args[i].type_
            &&& forall|k: Seq<char>| #[trigger] globals.contains_key(k) ==> vars.contains_key(k) && vars[k] == globals[k]
            &&& forall|k: Seq<char>| #[trigger] vars.contains_key(k) ==> globals.contains_key(k) || exists|i: int|
                0 <= i < args.len() && #[trigger] args[i].identifier@ == k
        },
        (exists|i: int| 0 <= i < args.len() && globals.contains_key(#[trigger] args[i].identifier@))
            ==> spec_argument_scope(args, globals) is Err,
        (exists|i: int, j: int| 0 <= i < j < args.len() && #[trigger] args[i].identifier@ == #[trigger] args[j].identifier@)
            ==> spec_argument_scope(args, globals) is Err,
    decreases args.len(),
{
    if args.len() > 0 {
        let front = args.drop_last();
        let last = args.last();
        lemma_argument_scope(front, globals);
        assert forall|i: int| 0 <= i < front.len() implies #[trigger] front[i] == args[i] by {}
        match spec_argument_scope(front, globals) {
            Ok(prev) => {
                if !prev.contains_key(last.identifier@) {
                    let vars = prev.insert(last.identifier@, last.type_);
                    assert forall|i: int| 0 <= i < args.len() implies vars.contains_key(#[trigger] args[i].identifier@)
                        && vars[args[i].identifier@] == args[i].type_ by {
                        if i < args.len() - 1 {
                            assert(front[i] == args[i]);
                            assert(prev.contains_key(front[i].identifier@));
                        }
                    }
                    assert forall|k: Seq<char>| #[trigger] vars.contains_key(k) implies globals.contains_key(k) || exists|i: int|
                        0 <= i < args.len() && #[trigger] args[i].identifier@ == k by {
                        if k == last.identifier@ {
                            assert(args[args.len() - 1].identifier@ == k);
                        } else if !globals.contains_key(k) {
                            let i = choose|i: int| 0 <= i < front.len() && #[trigger] front[i].identifier@ == k;
                            assert(args[i].identifier@ == k);
                        }
                    }
                }
                if exists|i: int| 0 <= i < args.len() && globals.contains_key(#[trigger] args[i].identifier@) {
                    let i = choose|i: int| 0 <= i < args.len() && globals.contains_key(#[trigger] args[i].identifier@);
                    if i < args.len() - 1 {
                        assert(globals.contains_key(front[i].identifier@));
                    }
                }
                if exists|i: int, j: int| 0 <= i < j < args.len() && #[trigger] args[i].identifier@ == #[trigger] args[j].identifier@ {
                    let (i, j) = choose|i: int, j: int| 0 <= i < j < args.len() && #[trigger] args[i].identifier@ == #[trigger] args[j].identifier@;
                    if j < args.len() - 1 {
                        assert(front[i].identifier@ == front[j].identifier@);
                    } else {
                        assert(prev.contains_key(front[i].identifier@));
                    }
                }
            },
            Err(_) => {},
        }
    }
}

/// The global scope of a program holds exactly the names of its global variables, each
/// with the type of its last declaration.
pub proof fn lemma_global_scope(vs: Seq<Variable>)
    ensures
        forall|k: Seq<char>| #[trigger] spec_global_variables(vs).contains_key(k) <==> exists|i: int|
            0 <= i < vs.len() && #[trigger] vs[i].identifier@ == k,
        forall|i: int| 0 <= i < vs.len() && (forall|j: int| i < j < vs.len() ==> #[trigger] vs[j].identifier@ != vs[i].identifier@)
            ==> spec_global_variables(vs)[#[trigger] vs[i].identifier@] == vs[i].type_,
    decreases vs.len(),
{
    if vs.len() > 0 {
        let front = vs.drop_last();
        lemma_global_scope(front);
        assert forall|i: int| 0 <= i < front.len() implies #[trigger] front[i] == vs[i] by {}
        assert forall|k: Seq<char>| #[trigger] spec_global_variables(vs).contains_key(k) <==> exists|i: int|
            0 <= i < vs.len() && #[trigger] vs[i].identifier@ == k by {
            if spec_global_variables(vs).contains_key(k) && k != vs.last().identifier@ {
                let i = choose|i: int| 0 <= i < front.len() && #[trigger] front[i].identifier@ == k;
                assert(vs[i].identifier@ == k);
            }
            if exists|i: int| 0 <= i < vs.len() && #[trigger] vs[i].identifier@ == k {
                let i = choose|i: int| 0 <= i < vs.len() && #[trigger] vs[i].identifier@ == k;
                if i < vs.len() - 1 {
                    assert(front[i].identifier@ == k);
                }
            }
        }
        assert forall|i: int| 0 <= i < vs.len() && (forall|j: int| i < j < vs.len() ==> #[trigger] vs[j].identifier@ != vs[i].identifier@)
            implies spec_global_variables(vs)[#[trigger] vs[i].identifier@] == vs[i].type_ by {
            if i < vs.len() - 1 {
                assert(vs[vs.len() - 1].identifier@ != vs[i].identifier@);
                assert forall|j: int| i < j < front.len() implies #[trigger] front[j].identifier@ != front[i].identifier@ by {
                    assert(vs[j].identifier@ != vs[i].identifier@);
                }
            }
        }
    }
}

/// Whether a function checks, or its first error.
pub open spec fn spec_check_function(f: Function<Expr>, globals: Scope, functions: Signatures) -> Checked<()> {
    match spec_argument_scope(f.arguments@, globals) {
        Ok(vars) => match spec_check_block(f.body@, f.return_type, vars, functions) {
            Some(Ok(_)) => Some(Ok(())),
            Some(Err(x)) => Some(Err(x)),
            None => None,
        },
        Err(x) => Some(Err(x)),
    }
}

/// `tf` is `f` with its body annotated.
pub open spec fn annotates_function(
    tf: Function<ExprType>,
    f: Function<Expr>,
    globals: Scope,
    functions: Signatures,
) -> bool {
    &&& spec_check_function(f, globals, functions) == Some(Ok::<(), TypeError>(()))
    &&& tf.return_type == f.return_type
    &&& tf.arguments == f.arguments
    &&& tf.indentifier == f.indentifier
    &&& annotates_block(
        tf.body@,
        f.body@,
        f.return_type,
        spec_argument_scope(f.arguments@, globals)->Ok_0,
        functions,
    )
}

/// The global variables, by name; a later declaration of a name replaces an earlier one.
pub open spec fn spec_global_variables(vs: Seq<Variable>) -> Scope
    decreases vs.len(),
{
    if vs.len() == 0 {
        Map::empty()
    } else {
        spec_global_variables(vs.drop_last()).insert(vs.last().identifier@, vs.last().type_)
    }
}

/// The types of a list of variables.
pub open spec fn variable_types(vs: Seq<Variable>) -> Seq<Type> {
    vs.map_values(|v: Variable| v.type_)
}

/// The signatures of the functions, by name; a later function of a name replaces an earlier one.
pub open spec fn spec_defined_functions(fs: Seq<Function<Expr>>) -> Signatures
    decreases fs.len(),
{
    if fs.len() == 0 {
        Map::empty()
    } else {
        spec_defined_functions(fs.drop_last()).insert(
            fs.last().indentifier@,
            (fs.last().return_type, variable_types(fs.last().arguments@)),
        )
    }
}

/// Whether the functions check one after the other, or the first error.
pub open spec fn spec_check_functions(fs: Seq<Function<Expr>>, globals: Scope, functions: Signatures) -> Checked<()>
    decreases fs.len(),
{
    if fs.len() == 0 {
        Some(Ok(()))
    } else {
        match spec_check_functions(fs.drop_last(), globals, functions) {
            Some(Ok(())) => spec_check_function(fs.last(), globals, functions),
            other => other,
        }
    }
}

/// Whether a program checks, or its first error.
pub open spec fn spec_type_check(p: Program<Expr>) -> Checked<()> {
    spec_check_functions(
        p.functions@,
        spec_global_variables(p.variables@),
        spec_defined_functions(p.functions@),
    )
}

/// `tp` is the program `p` with every function annotated.
pub open spec fn annotates_program(tp: Program<ExprType>, p: Program<Expr>) -> bool {
    &&& spec_type_check(p) == Some(Ok::<(), TypeError>(()))
    &&& tp.variables == p.variables
    &&& tp.functions@.len() == p.functions@.len()
    &&& forall|i: int|
        0 <= i < p.functions@.len() ==> #[trigger] annotates_function(
            tp.functions@[i],
            p.functions@[i],
            spec_global_variables(p.variables@),
            spec_defined_functions(p.functions@),
        )
}

/// `r` is what checking `e` gives: its annotation, its first error, or `None` where the
/// checker cannot go on.
pub open spec fn checked_expression(r: Checked<ExprType>, e: Expr, vars: Scope, functions: Signatures) -> bool {
    match r {
        Some(Ok(t)) => annotates(t, e, vars, functions),
        Some(Err(x)) => spec_check_expression(e, vars, functions) == Some(Err::<Type, TypeError>(x)),
        None => spec_check_expression(e, vars, functions) is None,
    }
}

/// Once checking a prefix of the arguments fails, checking all of them fails the same way.
proof fn lemma_arguments_prefix(args: Seq<Expr>, n: int, vars: Scope, functions: Signatures)
    requires
        0 <= n <= args.len(),
        !(spec_check_arguments(args.take(n), vars, functions) matches Some(Ok(_))),
    ensures
        spec_check_arguments(args, vars, functions) == spec_check_arguments(args.take(n), vars, functions),
    decreases args.len() - n,
{
    if n < args.len() {
        assert(args.take(n + 1).drop_last() =~= args.take(n));
        lemma_arguments_prefix(args, n + 1, vars, functions);
    } else {
        assert(args.take(n) =~= args);
    }
}

/// Check the arguments of a call, first to last
fn check_arguments(
    arguments: Vec<Expr>,
    variables: &StrMap<Type>,
    functions: &StrMap<(Type, Vec<Type>)>,
) -> (r: Checked<Vec<ExprType>>)
    requires
        variables.wf(),
        functions.wf(),
    ensures
        match r {
            Some(Ok(ts)) => annotates_all(ts@, arguments@, variables@, signatures_of(*functions))
                && spec_check_arguments(arguments@, variables@, signatures_of(*functions)) == Some(
                Ok::<Seq<Type>, TypeError>(types_of(ts@)),
            ),
            Some(Err(x)) => spec_check_arguments(arguments@, variables@, signatures_of(*functions))
                == Some(Err::<Seq<Type>, TypeError>(x)),
            None => spec_check_arguments(arguments@, variables@, signatures_of(*functions)) is None,
        },
    decreases arguments, 0int,
{
    let ghost all = arguments@;
    let ghost vars = variables@;
    let ghost fs = signatures_of(*functions);
    let mut annotated: Vec<ExprType> = Vec::new();
    proof {
        assert(all.take(0) =~= Seq::<Expr>::empty());
        assert(types_of(annotated@) =~= Seq::<Type>::empty());
    }
    for argument in iter: arguments.into_iter()
        invariant
            iter.seq() == all,
            variables.wf(),
            functions.wf(),
            vars == variables@,
            fs == signatures_of(*functions),
            annotates_all(annotated@, all.take(iter.index() as int), vars, fs),
            spec_check_arguments(all.take(iter.index() as int), vars, fs) == Some(
                Ok::<Seq<Type>, TypeError>(types_of(annotated@)),
            ),
    {
        let ghost i = iter.index() as int;
        let ghost before = annotated@;
        proof {
            assert(all.take(i + 1).drop_last() =~= all.take(i));
            assert(all.take(i + 1).last() == argument);
        }
        match check_expression(argument.0, variables, functions) {
            Some(Ok(t)) => {
                annotated.push(t);
                proof {
                    assert(annotated@.drop_last() =~= before);
                    assert(types_of(annotated@) =~= types_of(before).push(t.1));
                }
            },
            Some(Err(x)) => {
                proof {
                    lemma_arguments_prefix(all, i + 1, vars, fs);
                }
                return Some(Err(x));
            },
            None => {
                proof {
                    lemma_arguments_prefix(all, i + 1, vars, fs);
                }
                return None;
            },
        }
    }
    proof {
        assert(all.take(all.len() as int) =~= all);
    }
    Some(Ok(annotated))
}

/// Check an expression and annotate it with its type
fn check_expression(
    expression: Expression,
    variables: &StrMap<Type>,
    functions: &StrMap<(Type, Vec<Type>)>,
) -> (r: Checked<ExprType>)
    requires
        variables.wf(),
        functions.wf(),
    ensures
        checked_expression(r, Expr(expression), variables@, signatures_of(*functions)),
    decreases expression, 2int,
{
    match expression {
        Expression::Literal(literal) => {
            let t = match &literal {
                Literal::Bool(_) => Type::Bool,
                Literal::Int(_) => Type::Int,
                Literal::String(_) => Type::Pointer(Box::new(Type::Char)),
            };
            Some(Ok(ExprType(TypedExpression::Literal(literal), t)))
        },
        Expression::Var(identifier) => match variables.get(&identifier) {
            Some(type_) => {
                let t = copy_type(type_);
                Some(Ok(ExprType(TypedExpression::Var(identifier), t)))
            },
            None => Some(Err(TypeError::UndefinedVariable(identifier))),
        },
        Expression::BinaryOp(operator, operand1, operand2) => {
            let a = *operand1;
            let b = *operand2;
            let op1_type = match check_expression(a.0, variables, functions) {
                Some(Ok(t)) => t,
                other => return other,
            };
            let op2_type = match check_expression(b.0, variables, functions) {
                Some(Ok(t)) => t,
                other => return other,
            };
            match check_binary_operator(operator, op1_type, op2_type) {
                Ok(t) => Some(Ok(t)),
                Err(x) => Some(Err(x)),
            }
        },
        Expression::UnaryOp(operator, operand) => {
            let a = *operand;
            check_unary_operator(operator, a.0, variables, functions)
        },
        Expression::FunctionCall(identifier, arguments) => check_function_call(
            identifier,
            arguments,
            variables,
            functions,
        ),
        Expression::BuiltInFunctionCall(identifier, arguments) => check_builtinfunction_call(
            identifier,
            arguments,
            variables,
            functions,
        ),
        Expression::Cast(type_, operand) => check_cast(type_, *operand, variables, functions),
    }
}

/// Whether a type is `int`.
fn is_int(t: &Type) -> (r: bool)
    ensures
        r == (*t == Type::Int),
{
    match t {
        Type::Int => true,
        _ => false,
    }
}

/// Whether a type is `bool`.
fn is_bool(t: &Type) -> (r: bool)
    ensures
        r == (*t == Type::Bool),
{
    match t {
        Type::Bool => true,
        _ => false,
    }
}

/// The annotated binary operation on two checked operands, or why their types do not fit the operator
fn check_binary_operator(operator: Operator, op1_type: ExprType, op2_type: ExprType) -> (r: Result<ExprType, TypeError>)
    ensures
        match r {
            Ok(t) => binary_type(operator, op1_type.1, op2_type.1) == Ok::<Type, TypeError>(t.1)
                && t.0 == TypedExpression::BinaryOp(operator, Box::new(op1_type), Box::new(op2_type)),
            Err(x) => binary_type(operator, op1_type.1, op2_type.1) == Err::<Type, TypeError>(x),
        },
{
    let result_type: Result<Type, TypeError> = match operator {
        Operator::Addition | Operator::Subtraction | Operator::Multiplication | Operator::Division
        | Operator::Modulo => if is_int(&op1_type.1) && is_int(&op2_type.1) {
            Ok(Type::Int)
        } else {
            Err(TypeError::WrongOperand(copy_type(&op1_type.1), copy_type(&op2_type.1), operator))
        },
        Operator::And | Operator::Or => if is_bool(&op1_type.1) && is_bool(&op2_type.1) {
            Ok(Type::Bool)
        } else {
            Err(TypeError::WrongOperand(copy_type(&op1_type.1), copy_type(&op2_type.1), operator))
        },
        Operator::LessEq | Operator::Less | Operator::GreaterEquals | Operator::Greater => if is_int(
            &op1_type.1,
        ) && is_int(&op2_type.1) {
            Ok(Type::Bool)
        } else {
            Err(TypeError::WrongOperand(copy_type(&op1_type.1), copy_type(&op2_type.1), operator))
        },
        Operator::Equals | Operator::NotEqual => if type_equals(&op1_type.1, &op2_type.1) {
            Ok(Type::Bool)
        } else {
            Err(TypeError::WrongOperand(copy_type(&op1_type.1), copy_type(&op2_type.1), operator))
        },
        Operator::Assignment => if type_equals(&op1_type.1, &op2_type.1) {
            Ok(copy_type(&op2_type.1))
        } else {
            Err(TypeError::WrongOperand(copy_type(&op1_type.1), copy_type(&op2_type.1), operator))
        },
        Operator::ArraySubScript => match &op1_type.1 {
            Type::Pointer(inner) => if is_int(&op2_type.1) {
                Ok(copy_type(inner))
            } else {
                Err(TypeError::WrongOperand(copy_type(&op1_type.1), copy_type(&op2_type.1), operator))
            },
            _ => Err(TypeError::WrongOperand(copy_type(&op1_type.1), copy_type(&op2_type.1), operator)),
        },
    };
    match result_type {
        Ok(t) => Ok(ExprType(TypedExpression::BinaryOp(operator, Box::new(op1_type), Box::new(op2_type)), t)),
        Err(x) => Err(x),
    }
}

/// Check a unary operation and annotate it with its type
fn check_unary_operator(
    operator: UnaryOperator,
    operand: Expression,
    variables: &StrMap<Type>,
    functions: &StrMap<(Type, Vec<Type>)>,
) -> (r: Checked<ExprType>)
    requires
        variables.wf(),
        functions.wf(),
    ensures
        checked_expression(
            r,
            Expr(Expression::UnaryOp(operator, Box::new(Expr(operand)))),
            variables@,
            signatures_of(*functions),
        ),
    decreases operand, 3int,
{
    let operator_type = match check_expression(operand, variables, functions) {
        Some(Ok(t)) => t,
        other => return other,
    };
    let result_type: Result<Type, TypeError> = match operator {
        UnaryOperator::Dereference => match &operator_type.1 {
            Type::Pointer(inner) => Ok(copy_type(inner)),
            _ => Err(TypeError::WrongUnaryOperand(copy_type(&operator_type.1), operator)),
        },
        UnaryOperator::AddressOf => Ok(Type::Pointer(Box::new(copy_type(&operator_type.1)))),
        UnaryOperator::Negation => if is_bool(&operator_type.1) {
            Ok(Type::Bool)
        } else {
            Err(TypeError::WrongUnaryOperand(copy_type(&operator_type.1), operator))
        },
    };
    match result_type {
        Ok(t) => Some(Ok(ExprType(TypedExpression::UnaryOp(operator, Box::new(operator_type)), t))),
        Err(x) => Some(Err(x)),
    }
}

/// Check a cast: bool may become an int or a char, a char an int
fn check_cast(
    type_: Type,
    operand: Expr,
    variables: &StrMap<Type>,
    functions: &StrMap<(Type, Vec<Type>)>,
) -> (r: Checked<ExprType>)
    requires
        variables.wf(),
        functions.wf(),
    ensures
        checked_expression(
            r,
            Expr(Expression::Cast(type_, Box::new(operand))),
            variables@,
            signatures_of(*functions),
        ),
    decreases operand, 3int,
{
    let operand = match check_expression(operand.0, variables, functions) {
        Some(Ok(t)) => t,
        other => return other,
    };
    let allowed = match (&type_, &operand.1) {
        (Type::Int, Type::Bool) | (Type::Char, Type::Bool) | (Type::Int, Type::Char) => true,
        _ => false,
    };
    if allowed {
        let t = copy_type(&type_);
        Some(Ok(ExprType(TypedExpression::Cast(type_, Box::new(operand)), t)))
    } else {
        Some(Err(TypeError::WrongCast(type_, copy_type(&operand.1))))
    }
}

/// Check a call of a built in function: only `syscall` exists, and its first argument,
/// the number of the system call, is an int
fn check_builtinfunction_call(
    identifier: String,
    arguments: Vec<Expr>,
    variables: &StrMap<Type>,
    functions: &StrMap<(Type, Vec<Type>)>,
) -> (r: Checked<ExprType>)
    requires
        variables.wf(),
        functions.wf(),
    ensures
        checked_expression(
            r,
            Expr(Expression::BuiltInFunctionCall(identifier, arguments)),
            variables@,
            signatures_of(*functions),
        ),
    decreases arguments, 1int,
{
    let syscall = String::from_str("syscall");
    if identifier != syscall {
        return Some(Err(TypeError::UndefinedBuiltinFunction(identifier)));
    }
    let annotated_args = match check_arguments(arguments, variables, functions) {
        Some(Ok(ts)) => ts,
        Some(Err(x)) => return Some(Err(x)),
        None => return None,
    };
    if annotated_args.len() < 1 {
        return None;
    }
    if !is_int(&annotated_args[0].1) {
        return Some(Err(TypeError::WrongArgument(copy_type(&annotated_args[0].1), Type::Int, identifier)));
    }
    Some(Ok(ExprType(TypedExpression::BuiltInFunctionCall(identifier, annotated_args), Type::Int)))
}

/// Check a call of a function of the program: its arguments must match its parameters in
/// number and type
fn check_function_call(
    function_identifier: String,
    arguments: Vec<Expr>,
    variables: &StrMap<Type>,
    functions: &StrMap<(Type, Vec<Type>)>,
) -> (r: Checked<ExprType>)
    requires
        variables.wf(),
        functions.wf(),
    ensures
        checked_expression(
            r,
            Expr(Expression::FunctionCall(function_identifier, arguments)),
            variables@,
            signatures_of(*functions),
        ),
    decreases arguments, 1int,
{
    let ghost fs = signatures_of(*functions);
    let ghost e = Expr(Expression::FunctionCall(function_identifier, arguments));
    let annotated_args = match check_arguments(arguments, variables, functions) {
        Some(Ok(ts)) => ts,
        Some(Err(x)) => return Some(Err(x)),
        None => return None,
    };
    let ghost actual = types_of(annotated_args@);
    let entry = match functions.get(&function_identifier) {
        Some(entry) => entry,
        None => return Some(Err(TypeError::UndefinedFunction(function_identifier))),
    };
    let return_type = &entry.0;
    let func_args = &entry.1;
    if annotated_args.len() != func_args.len() {
        return Some(Err(TypeError::WrongArgumentAmount(function_identifier)));
    }
    proof {
        assert(fs.contains_key(function_identifier@));
        assert(fs[function_identifier@] == (entry.0, entry.1@));
        assert(spec_check_expression(e, variables@, fs) == Some(call_type(function_identifier, actual, fs)));
    }
    let mut i: usize = 0;
    while i < annotated_args.len()
        invariant
            i <= annotated_args@.len(),
            fs.contains_key(function_identifier@),
            fs[function_identifier@].1 == func_args@,
            spec_check_expression(e, variables@, fs) == Some(call_type(function_identifier, actual, fs)),
            e == Expr(Expression::FunctionCall(function_identifier, arguments)),
            fs == signatures_of(*functions),
            annotated_args@.len() == func_args@.len(),
            actual == types_of(annotated_args@),
            first_mismatch(actual, func_args@, 0) == first_mismatch(actual, func_args@, i as int),
        decreases annotated_args@.len() - i,
    {
        if !type_equals(&annotated_args[i].1, &func_args[i]) {
            proof {
                assert(actual[i as int] == annotated_args@[i as int].1);
                assert(fs[function_identifier@].1 == func_args@);
                assert(first_mismatch(actual, func_args@, i as int) == Some(i as int));
                assert(call_type(function_identifier, actual, fs) == Err::<Type, TypeError>(
                    TypeError::WrongArgument(actual[i as int], func_args@[i as int], function_identifier),
                ));
            }
            let err = TypeError::WrongArgument(
                copy_type(&annotated_args[i].1),
                copy_type(&func_args[i]),
                function_identifier,
            );
            return Some(Err(err));
        }
        i = i + 1;
    }
    let t = copy_type(return_type);
    Some(Ok(ExprType(TypedExpression::FunctionCall(function_identifier, annotated_args), t)))
}

/// A copy of the variables in scope.
fn copy_variables(variables: &StrMap<Type>) -> (r: StrMap<Type>)
    ensures
        r.entries@ == variables.entries@,
{
    let mut entries: Vec<(String, Type)> = Vec::new();
    let mut i: usize = 0;
    while i < variables.entries.len()
        invariant
            i <= variables.entries@.len(),
            entries@ == variables.entries@.take(i as int),
        decreases variables.entries@.len() - i,
    {
        let entry = (variables.entries[i].0.clone(), copy_type(&variables.entries[i].1));
        entries.push(entry);
        i = i + 1;
        proof {
            assert(entries@ =~= variables.entries@.take(i as int));
        }
    }
    proof {
        assert(variables.entries@.take(i as int) =~= variables.entries@);
    }
    StrMap { entries }
}

/// Once checking a prefix of a block fails, checking all of it fails the same way.
proof fn lemma_block_prefix(b: Seq<Statement<Expr>>, n: int, ret: Type, vars: Scope, functions: Signatures)
    requires
        0 <= n <= b.len(),
        !(spec_check_block(b.take(n), ret, vars, functions) matches Some(Ok(_))),
    ensures
        spec_check_block(b, ret, vars, functions) == spec_check_block(b.take(n), ret, vars, functions),
    decreases b.len() - n,
{
    if n < b.len() {
        assert(b.take(n + 1).drop_last() =~= b.take(n));
        lemma_block_prefix(b, n + 1, ret, vars, functions);
    } else {
        assert(b.take(n) =~= b);
    }
}

/// Check one statement; a declaration adds its variable to the scope
fn check_statement(
    statement: Statement<Expr>,
    return_type: &Type,
    variables: &mut StrMap<Type>,
    functions: &StrMap<(Type, Vec<Type>)>,
) -> (r: Checked<Statement<ExprType>>)
    requires
        old(variables).wf(),
        functions.wf(),
    ensures
        final(variables).wf(),
        match r {
            Some(Ok(ts)) => annotates_statement(ts, statement, *return_type, old(variables)@, signatures_of(*functions))
                && spec_check_statement(statement, *return_type, old(variables)@, signatures_of(*functions))
                == Some(Ok::<Scope, TypeError>(final(variables)@)),
            Some(Err(x)) => spec_check_statement(statement, *return_type, old(variables)@, signatures_of(*functions))
                == Some(Err::<Scope, TypeError>(x)),
            None => spec_check_statement(statement, *return_type, old(variables)@, signatures_of(*functions)) is None,
        },
    decreases statement, 1int,
{
    match statement {
        Statement::Declaration(Variable { type_, identifier }) => {
            match variables.insert(identifier.clone(), copy_type(&type_)) {
                Some(_) => Some(Err(TypeError::DuplicateVariable(identifier))),
                None => Some(Ok(Statement::Declaration(Variable { type_, identifier }))),
            }
        },
        Statement::Expression(expression) => match check_expression(expression.0, variables, functions) {
            Some(Ok(t)) => Some(Ok(Statement::Expression(t))),
            Some(Err(x)) => Some(Err(x)),
            None => None,
        },
        Statement::If { condition, then_branch, else_branch } => {
            let condition = match check_expression(condition.0, variables, functions) {
                Some(Ok(t)) => t,
                Some(Err(x)) => return Some(Err(x)),
                None => return None,
            };
            if !is_bool(&condition.1) {
                return Some(Err(TypeError::WrongCondition(copy_type(&condition.1))));
            }
            let then_branch = match check_block(then_branch, return_type, variables, functions) {
                Some(Ok(b)) => b,
                Some(Err(x)) => return Some(Err(x)),
                None => return None,
            };
            let else_branch = match check_block(else_branch, return_type, variables, functions) {
                Some(Ok(b)) => b,
                Some(Err(x)) => return Some(Err(x)),
                None => return None,
            };
            Some(Ok(Statement::If { condition, then_branch, else_branch }))
        },
        Statement::While { condition, body } => {
            let condition = match check_expression(condition.0, variables, functions) {
                Some(Ok(t)) => t,
                Some(Err(x)) => return Some(Err(x)),
                None => return None,
            };
            if !is_bool(&condition.1) {
                return Some(Err(TypeError::WrongCondition(copy_type(&condition.1))));
            }
            let body = match check_block(body, return_type, variables, functions) {
                Some(Ok(b)) => b,
                Some(Err(x)) => return Some(Err(x)),
                None => return None,
            };
            Some(Ok(Statement::While { condition, body }))
        },
        Statement::Return(expression) => {
            let actual_return = match check_expression(expression.0, variables, functions) {
                Some(Ok(t)) => t,
                Some(Err(x)) => return Some(Err(x)),
                None => return None,
            };
            if !type_equals(return_type, &actual_return.1) {
                Some(Err(TypeError::WrongReturn(copy_type(&actual_return.1))))
            } else {
                Some(Ok(Statement::Return(actual_return)))
            }
        },
    }
}

/// Check a block; what it declares is local to it
fn check_block(
    block: Vec<Statement<Expr>>,
    return_type: &Type,
    variables: &StrMap<Type>,
    functions: &StrMap<(Type, Vec<Type>)>,
) -> (r: Checked<Vec<Statement<ExprType>>>)
    requires
        variables.wf(),
        functions.wf(),
    ensures
        match r {
            Some(Ok(tb)) => annotates_block(tb@, block@, *return_type, variables@, signatures_of(*functions)),
            Some(Err(x)) => spec_check_block(block@, *return_type, variables@, signatures_of(*functions))
                == Some(Err::<Scope, TypeError>(x)),
            None => spec_check_block(block@, *return_type, variables@, signatures_of(*functions)) is None,
        },
    decreases block, 0int,
{
    let ghost all = block@;
    let ghost vars = variables@;
    let ghost fs = signatures_of(*functions);
    // the variables declared in this block are local to it
    let mut local = copy_variables(variables);
    let mut annoted_statements: Vec<Statement<ExprType>> = Vec::new();
    proof {
        assert(all.take(0) =~= Seq::<Statement<Expr>>::empty());
    }
    for statement in iter: block.into_iter()
        invariant
            iter.seq() == all,
            all == block@,
            vars == variables@,
            local.wf(),
            functions.wf(),
            fs == signatures_of(*functions),
            spec_check_block(all.take(iter.index() as int), *return_type, vars, fs) == Some(
                Ok::<Scope, TypeError>(local@),
            ),
            annotates_block(annoted_statements@, all.take(iter.index() as int), *return_type, vars, fs),
    {
        let ghost i = iter.index() as int;
        let ghost before = annoted_statements@;
        proof {
            assert(all.take(i + 1).drop_last() =~= all.take(i));
            assert(all.take(i + 1).last() == statement);
        }
        match check_statement(statement, return_type, &mut local, functions) {
            Some(Ok(ts)) => {
                annoted_statements.push(ts);
                proof {
                    assert(annoted_statements@.drop_last() =~= before);
                }
            },
            Some(Err(x)) => {
                proof {
                    lemma_block_prefix(all, i + 1, *return_type, vars, fs);
                }
                return Some(Err(x));
            },
            None => {
                proof {
                    lemma_block_prefix(all, i + 1, *return_type, vars, fs);
                }
                return None;
            },
        }
    }
    proof {
        assert(all.take(all.len() as int) =~= all);
    }
    Some(Ok(annoted_statements))
}

/// Once a prefix of the arguments has a name that is already taken, so have all of them.
proof fn lemma_argument_scope_prefix(args: Seq<Variable>, n: int, globals: Scope)
    requires
        0 <= n <= args.len(),
        spec_argument_scope(args.take(n), globals) is Err,
    ensures
        spec_argument_scope(args, globals) == spec_argument_scope(args.take(n), globals),
    decreases args.len() - n,
{
    if n < args.len() {
        assert(args.take(n + 1).drop_last() =~= args.take(n));
        lemma_argument_scope_prefix(args, n + 1, globals);
    } else {
        assert(args.take(n) =~= args);
    }
}

/// Check a function: its arguments may not reuse a name in scope, and its body is checked
/// with the global variables and the arguments in scope
fn check_function(
    function: Function<Expr>,
    variables: &StrMap<Type>,
    functions: &StrMap<(Type, Vec<Type>)>,
) -> (r: Checked<Function<ExprType>>)
    requires
        variables.wf(),
        functions.wf(),
    ensures
        match r {
            Some(Ok(tf)) => annotates_function(tf, function, variables@, signatures_of(*functions)),
            Some(Err(x)) => spec_check_function(function, variables@, signatures_of(*functions))
                == Some(Err::<(), TypeError>(x)),
            None => spec_check_function(function, variables@, signatures_of(*functions)) is None,
        },
{
    let ghost f = function;
    let ghost globals = variables@;
    let ghost fs = signatures_of(*functions);
    let Function { return_type, arguments, indentifier, body } = function;
    let mut defined_variables = copy_variables(variables);
    let mut i: usize = 0;
    proof {
        assert(arguments@.take(0) =~= Seq::<Variable>::empty());
    }
    while i < arguments.len()
        invariant
            i <= arguments@.len(),
            arguments == f.arguments,
            f == function,
            globals == variables@,
            fs == signatures_of(*functions),
            defined_variables.wf(),
            spec_argument_scope(arguments@.take(i as int), globals) == Ok::<Scope, TypeError>(defined_variables@),
        decreases arguments@.len() - i,
    {
        proof {
            assert(arguments@.take(i + 1).drop_last() =~= arguments@.take(i as int));
        }
        let argument = &arguments[i];
        if defined_variables.insert(argument.identifier.clone(), copy_type(&argument.type_)).is_some() {
            proof {
                lemma_argument_scope_prefix(arguments@, i + 1, globals);
            }
            return Some(Err(TypeError::DuplicateVariable(argument.identifier.clone())));
        }
        i = i + 1;
    }
    proof {
        assert(arguments@.take(i as int) =~= arguments@);
    }
    let ghost scope = defined_variables@;
    let ghost all = body@;
    let mut annotated_body: Vec<Statement<ExprType>> = Vec::new();
    proof {
        assert(all.take(0) =~= Seq::<Statement<Expr>>::empty());
    }
    for statement in iter: body.into_iter()
        invariant
            iter.seq() == all,
            all == f.body@,
            f == function,
            return_type == f.return_type,
            globals == variables@,
            scope == spec_argument_scope(f.arguments@, globals)->Ok_0,
            spec_argument_scope(f.arguments@, globals) is Ok,
            defined_variables.wf(),
            functions.wf(),
            fs == signatures_of(*functions),
            spec_check_block(all.take(iter.index() as int), return_type, scope, fs) == Some(
                Ok::<Scope, TypeError>(defined_variables@),
            ),
            annotates_block(annotated_body@, all.take(iter.index() as int), return_type, scope, fs),
    {
        let ghost k = iter.index() as int;
        let ghost before = annotated_body@;
        proof {
            assert(all.take(k + 1).drop_last() =~= all.take(k));
            assert(all.take(k + 1).last() == statement);
        }
        match check_statement(statement, &return_type, &mut defined_variables, functions) {
            Some(Ok(ts)) => {
                annotated_body.push(ts);
                proof {
                    assert(annotated_body@.drop_last() =~= before);
                }
            },
            Some(Err(x)) => {
                proof {
                    lemma_block_prefix(all, k + 1, return_type, scope, fs);
                }
                return Some(Err(x));
            },
            None => {
                proof {
                    lemma_block_prefix(all, k + 1, return_type, scope, fs);
                }
                return None;
            },
        }
    }
    proof {
        assert(all.take(all.len() as int) =~= all);
    }
    Some(Ok(Function { return_type, arguments, indentifier, body: annotated_body }))
}

/// Once a prefix of the functions fails to check, checking all of them fails the same way.
proof fn lemma_functions_prefix(fs: Seq<Function<Expr>>, n: int, globals: Scope, functions: Signatures)
    requires
        0 <= n <= fs.len(),
        spec_check_functions(fs.take(n), globals, functions) != Some(Ok::<(), TypeError>(())),
    ensures
        spec_check_functions(fs, globals, functions) == spec_check_functions(fs.take(n), globals, functions),
    decreases fs.len() - n,
{
    if n < fs.len() {
        assert(fs.take(n + 1).drop_last() =~= fs.take(n));
        lemma_functions_prefix(fs, n + 1, globals, functions);
    } else {
        assert(fs.take(n) =~= fs);
    }
}

/// The types of a list of variables.
fn argument_types(arguments: &Vec<Variable>) -> (r: Vec<Type>)
    ensures
        r@ == variable_types(arguments@),
{
    let mut types: Vec<Type> = Vec::new();
    let mut i: usize = 0;
    while i < arguments.len()
        invariant
            i <= arguments@.len(),
            types@ == variable_types(arguments@.take(i as int)),
        decreases arguments@.len() - i,
    {
        types.push(copy_type(&arguments[i].type_));
        i = i + 1;
        proof {
            assert(types@ =~= variable_types(arguments@.take(i as int)));
        }
    }
    proof {
        assert(arguments@.take(i as int) =~= arguments@);
    }
    types
}

/// Type check a program, or say that it cannot be checked: `None` where a `syscall` is
/// given no arguments at all, whose number the checker would then look for in vain.
pub fn check_program(program: Program<Expr>) -> (r: Checked<Program<ExprType>>)
    ensures
        match r {
            Some(Ok(tp)) => annotates_program(tp, program),
            Some(Err(x)) => spec_type_check(program) == Some(Err::<(), TypeError>(x)),
            None => spec_type_check(program) is None,
        },
{
    let ghost p = program;
    let Program { functions, variables } = program;
    let mut defined_functions: StrMap<(Type, Vec<Type>)> = StrMap::new();
    let mut i: usize = 0;
    proof {
        assert(functions@.take(0) =~= Seq::<Function<Expr>>::empty());
        assert(signatures_of(defined_functions) =~= Map::<Seq<char>, (Type, Seq<Type>)>::empty());
    }
    while i < functions.len()
        invariant
            i <= functions@.len(),
            defined_functions.wf(),
            signatures_of(defined_functions) == spec_defined_functions(functions@.take(i as int)),
        decreases functions@.len() - i,
    {
        let function = &functions[i];
        let entry = (copy_type(&function.return_type), argument_types(&function.arguments));
        let ghost before = defined_functions@;
        defined_functions.insert(function.indentifier.clone(), entry);
        proof {
            assert(functions@.take(i + 1).drop_last() =~= functions@.take(i as int));
            assert(signatures_of(defined_functions) =~= signatures_of_map(before).insert(
                function.indentifier@,
                (entry.0, entry.1@),
            ));
        }
        i = i + 1;
    }
    proof {
        assert(functions@.take(i as int) =~= functions@);
    }
    let mut defined_variables: StrMap<Type> = StrMap::new();
    let mut j: usize = 0;
    proof {
        assert(variables@.take(0) =~= Seq::<Variable>::empty());
    }
    while j < variables.len()
        invariant
            j <= variables@.len(),
            defined_variables.wf(),
            defined_variables@ == spec_global_variables(variables@.take(j as int)),
        decreases variables@.len() - j,
    {
        defined_variables.insert(variables[j].identifier.clone(), copy_type(&variables[j].type_));
        proof {
            assert(variables@.take(j + 1).drop_last() =~= variables@.take(j as int));
        }
        j = j + 1;
    }
    proof {
        assert(variables@.take(j as int) =~= variables@);
    }
    let ghost globals = defined_variables@;
    let ghost fs = signatures_of(defined_functions);
    let ghost all = functions@;
    let mut functions2: Vec<Function<ExprType>> = Vec::new();
    proof {
        assert(all.take(0) =~= Seq::<Function<Expr>>::empty());
    }
    for function in iter: functions.into_iter()
        invariant
            iter.seq() == all,
            p == program,
            p.functions@ == all,
            p.variables == variables,
            globals == spec_global_variables(p.variables@),
            fs == spec_defined_functions(all),
            globals == defined_variables@,
            fs == signatures_of(defined_functions),
            defined_variables.wf(),
            defined_functions.wf(),
            spec_check_functions(all.take(iter.index() as int), globals, fs) == Some(Ok::<(), TypeError>(())),
            functions2@.len() == iter.index(),
            forall|k: int|
                0 <= k < functions2@.len() ==> #[trigger] annotates_function(functions2@[k], all[k], globals, fs),
    {
        let ghost k = iter.index() as int;
        proof {
            assert(all.take(k + 1).drop_last() =~= all.take(k));
            assert(all.take(k + 1).last() == function);
        }
        match check_function(function, &defined_variables, &defined_functions) {
            Some(Ok(tf)) => functions2.push(tf),
            Some(Err(x)) => {
                proof {
                    lemma_functions_prefix(all, k + 1, globals, fs);
                }
                return Some(Err(x));
            },
            None => {
                proof {
                    lemma_functions_prefix(all, k + 1, globals, fs);
                }
                return None;
            },
        }
    }
    proof {
        assert(all.take(all.len() as int) =~= all);
    }
    Some(Ok(Program { variables, functions: functions2 }))
}

/// Type check a program: annotate every expression with its type, or report the first
/// type error.
pub fn type_check(program: Program<Expr>) -> (r: Result<Program<ExprType>, TypeError>)
    requires
        spec_type_check(program) is Some,
    ensures
        match r {
            Ok(tp) => annotates_program(tp, program),
            Err(x) => spec_type_check(program) == Some(Err::<(), TypeError>(x)),
        },
{
    check_program(program).unwrap()
}

} // verus!
