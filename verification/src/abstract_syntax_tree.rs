//! The abstract syntax tree, before (`Expr`) and after (`ExprType`) type checking.
use vstd::prelude::*;

verus! {

#[derive(Debug, PartialEq)]
pub struct Program<ExpressionType> {
    pub functions: Vec<Function<ExpressionType>>,
    pub variables: Vec<Variable>,
}

pub type Indentifier = String;

#[derive(Debug, PartialEq)]
pub struct Function<ExpressionType> {
    pub return_type: Type,
    pub arguments: Vec<Variable>,
    pub indentifier: Indentifier,
    pub body: Vec<Statement<ExpressionType>>,
}

#[derive(Debug, PartialEq)]
pub enum Statement<ExpressionType> {
    Declaration(Variable),
    Expression(ExpressionType),
    If {
        condition: ExpressionType,
        then_branch: Vec<Statement<ExpressionType>>,
        else_branch: Vec<Statement<ExpressionType>>,
    },
    While { condition: ExpressionType, body: Vec<Statement<ExpressionType>> },
    Return(ExpressionType),
}

#[derive(Debug, Clone, Copy, PartialEq, Eq, Structural)]
pub enum Operator {
    Addition,
    Subtraction,
    Multiplication,
    Division,
    Modulo,
    And,
    Or,
    LessEq,
    Less,
    GreaterEquals,
    Greater,
    Equals,
    NotEqual,
    Assignment,
    ArraySubScript,
}

#[derive(Debug, Clone, Copy, PartialEq, Eq, Structural)]
pub enum UnaryOperator {
    Dereference,
    AddressOf,
    Negation,
}

#[derive(Debug, PartialEq)]
pub enum Literal {
    Bool(bool),
    Int(i64),
    String(String),
}

/// An expression before type checking
#[derive(Debug, PartialEq)]
pub struct Expr(pub Expression);

#[derive(Debug, PartialEq)]
pub enum Expression {
    Literal(Literal),
    Var(Indentifier),
    BinaryOp(Operator, Box<Expr>, Box<Expr>),
    UnaryOp(UnaryOperator, Box<Expr>),
    FunctionCall(Indentifier, Vec<Expr>),
    /// Call to some built in language construct, like syscall
    BuiltInFunctionCall(Indentifier, Vec<Expr>),
    Cast(Type, Box<Expr>),
}

/// An expression annotated with its type
#[derive(Debug, PartialEq)]
pub struct ExprType(pub TypedExpression, pub Type);

/// The expressions of a type checked program, whose operands carry their types
#[derive(Debug, PartialEq)]
pub enum TypedExpression {
    Literal(Literal),
    Var(Indentifier),
    BinaryOp(Operator, Box<ExprType>, Box<ExprType>),
    UnaryOp(UnaryOperator, Box<ExprType>),
    FunctionCall(Indentifier, Vec<ExprType>),
    BuiltInFunctionCall(Indentifier, Vec<ExprType>),
    Cast(Type, Box<ExprType>),
}

#[derive(Debug, PartialEq)]
pub struct Variable {
    pub type_: Type,
    pub identifier: Indentifier,
}

#[derive(Debug, PartialEq)]
pub enum Type {
    Bool,
    Int,
    Void,
    Char,
    Pointer(Box<Type>),
}

pub open spec fn spec_unwrap_exprs(exprs: Seq<Expr>) -> Seq<Expression> {
    exprs.map_values(|e: Expr| e.0)
}

pub open spec fn spec_wrap_exprs(exprs: Seq<Expression>) -> Seq<Expr> {
    exprs.map_values(|e: Expression| Expr(e))
}

pub fn map_from_expr(exprs: Vec<Expr>) -> (r: Vec<Expression>)
    ensures
        r@ == spec_unwrap_exprs(exprs@),
{
    let ghost all = exprs@;
    let mut result: Vec<Expression> = Vec::new();
    for expr in iter: exprs.into_iter()
        invariant
            iter.seq() == all,
            result@ == spec_unwrap_exprs(all.take(iter.index() as int)),
    {
        let ghost i = iter.index() as int;
        result.push(expr.0);
        assert(spec_unwrap_exprs(all.take(i + 1)) =~= spec_unwrap_exprs(all.take(i)).push(all[i].0));
    }
    assert(all.take(all.len() as int) =~= all);
    result
}

pub fn map_to_expr(exprs: Vec<Expression>) -> (r: Vec<Expr>)
    ensures
        r@ == spec_wrap_exprs(exprs@),
{
    let ghost all = exprs@;
    let mut result: Vec<Expr> = Vec::new();
    for expr in iter: exprs.into_iter()
        invariant
            iter.seq() == all,
            result@ == spec_wrap_exprs(all.take(iter.index() as int)),
    {
        let ghost i = iter.index() as int;
        result.push(Expr(expr));
        assert(spec_wrap_exprs(all.take(i + 1)) =~= spec_wrap_exprs(all.take(i)).push(Expr(all[i])));
    }
    assert(all.take(all.len() as int) =~= all);
    result
}

/// Wrapping expressions and unwrapping them again gives them back, and the other way round.
pub proof fn lemma_wrap_unwrap(exprs: Seq<Expression>, wrapped: Seq<Expr>)
    ensures
        spec_unwrap_exprs(spec_wrap_exprs(exprs)) == exprs,
        spec_wrap_exprs(spec_unwrap_exprs(wrapped)) == wrapped,
{
    assert(spec_unwrap_exprs(spec_wrap_exprs(exprs)) =~= exprs);
    assert(spec_wrap_exprs(spec_unwrap_exprs(wrapped)) =~= wrapped);
}

/// A copy of a type.
pub fn copy_type(type_: &Type) -> (r: Type)
    ensures
        r == *type_,
    decreases type_,
{
    match type_ {
        Type::Bool => Type::Bool,
        Type::Int => Type::Int,
        Type::Void => Type::Void,
        Type::Char => Type::Char,
        Type::Pointer(inner) => Type::Pointer(Box::new(copy_type(inner))),
    }
}

/// Whether two types are the same.
pub fn type_equals(a: &Type, b: &Type) -> (r: bool)
    ensures
        r == (*a == *b),
    decreases a,
{
    match (a, b) {
        (Type::Bool, Type::Bool) => true,
        (Type::Int, Type::Int) => true,
        (Type::Void, Type::Void) => true,
        (Type::Char, Type::Char) => true,
        (Type::Pointer(x), Type::Pointer(y)) => type_equals(x, y),
        _ => false,
    }
}

/// A copy of a variable.
pub fn copy_variable(variable: &Variable) -> (r: Variable)
    ensures
        r.type_ == variable.type_,
        r.identifier@ == variable.identifier@,
{
    Variable { type_: copy_type(&variable.type_), identifier: variable.identifier.clone() }
}

} // verus!
