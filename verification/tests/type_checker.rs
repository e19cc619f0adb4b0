use poo_compiler::abstract_syntax_tree::{
    Expr, ExprType, Expression, Function, Literal, Operator, Program, Statement, Type, TypedExpression,
    UnaryOperator,
};
use poo_compiler::parsing::parse;
use poo_compiler::type_checker::{check_program, type_check, TypeError};

fn checked(source: &str) -> Result<Program<ExprType>, TypeError> {
    type_check(parse(source).expect("program should parse"))
}

fn typed_int(i: i64) -> ExprType {
    ExprType(TypedExpression::Literal(Literal::Int(i)), Type::Int)
}

#[test]
fn annotates_every_expression_with_its_type() {
    let program = checked("Int main() { return 1 + 2; }").expect("program should check");
    assert_eq!(program.functions.len(), 1);
    assert_eq!(
        program.functions[0].body,
        vec![Statement::Return(ExprType(
            TypedExpression::BinaryOp(Operator::Addition, Box::new(typed_int(1)), Box::new(typed_int(2))),
            Type::Int
        ))]
    );
}

#[test]
fn keeps_variables_and_signatures() {
    let program = checked("Int g; Bool f(Int a) { return a == g; } Int main() { return 0; }").expect("program should check");
    assert_eq!(program.variables.len(), 1);
    assert_eq!(program.variables[0].identifier, "g");
    assert_eq!(program.functions[0].indentifier, "f");
    assert_eq!(program.functions[0].return_type, Type::Bool);
    assert_eq!(program.functions[0].arguments[0].identifier, "a");
    assert_eq!(
        program.functions[0].body,
        vec![Statement::Return(ExprType(
            TypedExpression::BinaryOp(
                Operator::Equals,
                Box::new(ExprType(TypedExpression::Var("a".to_string()), Type::Int)),
                Box::new(ExprType(TypedExpression::Var("g".to_string()), Type::Int))
            ),
            Type::Bool
        ))]
    );
}

#[test]
fn string_literals_are_char_pointers_and_subscripts_chars() {
    let subscript = Expr(Expression::BinaryOp(
        Operator::ArraySubScript,
        Box::new(Expr(Expression::Literal(Literal::String("ab".to_string())))),
        Box::new(Expr(Expression::Literal(Literal::Int(1)))),
    ));
    let program = Program {
        functions: vec![Function {
            return_type: Type::Char,
            arguments: vec![],
            indentifier: "main".to_string(),
            body: vec![Statement::Return(subscript)],
        }],
        variables: vec![],
    };
    let typed = type_check(program).expect("program should check");
    match &typed.functions[0].body[0] {
        Statement::Return(ExprType(TypedExpression::BinaryOp(_, a, _), t)) => {
            assert_eq!(*t, Type::Char);
            assert_eq!(a.1, Type::Pointer(Box::new(Type::Char)));
        }
        _ => panic!("expected a return of a subscript"),
    }
}

#[test]
fn block_variables_are_local_to_the_block() {
    // `x` declared in the branch is gone after it
    let result = checked("Int main() { if (True) { Int x; } else { } return x; }");
    assert!(matches!(result, Err(TypeError::UndefinedVariable(name)) if name == "x"));
}

#[test]
fn duplicate_variable() {
    assert!(matches!(checked("Int x; Int main(Int x) { return 1; }"), Err(TypeError::DuplicateVariable(name)) if name == "x"));
    assert!(matches!(checked("Int main() { Int y; Int y; return 1; }"), Err(TypeError::DuplicateVariable(name)) if name == "y"));
}

#[test]
fn undefined_variable() {
    assert!(matches!(checked("Int main() { return x; }"), Err(TypeError::UndefinedVariable(name)) if name == "x"));
}

#[test]
fn undefined_function() {
    assert!(matches!(checked("Int main() { return f(); }"), Err(TypeError::UndefinedFunction(name)) if name == "f"));
}

#[test]
fn undefined_builtin_function() {
    assert!(matches!(checked("Int main() { return foo!(1); }"), Err(TypeError::UndefinedBuiltinFunction(name)) if name == "foo"));
}

#[test]
fn wrong_argument_amount() {
    let result = checked("Int f(Int a) { return a; } Int main() { return f(); }");
    assert!(matches!(result, Err(TypeError::WrongArgumentAmount(name)) if name == "f"));
}

#[test]
fn wrong_argument() {
    let result = checked("Int f(Int a, Bool b) { return a; } Int main() { return f(1, 2); }");
    assert!(matches!(result, Err(TypeError::WrongArgument(Type::Int, Type::Bool, name)) if name == "f"));
    let result = checked("Int main() { return syscall!(True); }");
    assert!(matches!(result, Err(TypeError::WrongArgument(Type::Bool, Type::Int, name)) if name == "syscall"));
}

#[test]
fn wrong_return() {
    assert!(matches!(checked("Int main() { return True; }"), Err(TypeError::WrongReturn(Type::Bool))));
}

#[test]
fn wrong_condition() {
    let result = checked("Int main() { if (1) { return 1; } else { return 2; } }");
    assert!(matches!(result, Err(TypeError::WrongCondition(Type::Int))));
    let result = checked("Int main() { while (0) { } return 2; }");
    assert!(matches!(result, Err(TypeError::WrongCondition(Type::Int))));
}

#[test]
fn wrong_operand() {
    let result = checked("Int main() { return 1 + True; }");
    assert!(matches!(result, Err(TypeError::WrongOperand(Type::Int, Type::Bool, Operator::Addition))));
    let result = checked("Int main() { Bool b; b = 1; return 0; }");
    assert!(matches!(result, Err(TypeError::WrongOperand(Type::Bool, Type::Int, Operator::Assignment))));
}

fn main_returning(e: Expr, return_type: Type) -> Program<Expr> {
    Program {
        functions: vec![Function { return_type, arguments: vec![], indentifier: "main".to_string(), body: vec![Statement::Return(e)] }],
        variables: vec![],
    }
}

#[test]
fn wrong_unary_operand() {
    let e = Expr(Expression::UnaryOp(UnaryOperator::Negation, Box::new(Expr(Expression::Literal(Literal::Int(1))))));
    assert!(matches!(type_check(main_returning(e, Type::Bool)), Err(TypeError::WrongUnaryOperand(Type::Int, UnaryOperator::Negation))));
    let e = Expr(Expression::UnaryOp(UnaryOperator::Dereference, Box::new(Expr(Expression::Literal(Literal::Bool(true))))));
    assert!(matches!(type_check(main_returning(e, Type::Bool)), Err(TypeError::WrongUnaryOperand(Type::Bool, UnaryOperator::Dereference))));
}

#[test]
fn address_of_and_dereference() {
    let inner = Expr(Expression::Literal(Literal::Int(5)));
    let address = Expr(Expression::UnaryOp(UnaryOperator::AddressOf, Box::new(inner)));
    let deref = Expr(Expression::UnaryOp(UnaryOperator::Dereference, Box::new(address)));
    let typed = type_check(main_returning(deref, Type::Int)).expect("program should check");
    match &typed.functions[0].body[0] {
        Statement::Return(ExprType(TypedExpression::UnaryOp(UnaryOperator::Dereference, a), t)) => {
            assert_eq!(*t, Type::Int);
            assert_eq!(a.1, Type::Pointer(Box::new(Type::Int)));
        }
        _ => panic!("expected a dereference"),
    }
}

#[test]
fn wrong_cast() {
    let e = Expr(Expression::Cast(Type::Bool, Box::new(Expr(Expression::Literal(Literal::Int(1))))));
    assert!(matches!(type_check(main_returning(e, Type::Bool)), Err(TypeError::WrongCast(Type::Bool, Type::Int))));
    let e = Expr(Expression::Cast(Type::Int, Box::new(Expr(Expression::Literal(Literal::Bool(true))))));
    let typed = type_check(main_returning(e, Type::Int)).expect("bool to int is a cast");
    assert!(matches!(&typed.functions[0].body[0], Statement::Return(ExprType(TypedExpression::Cast(Type::Int, _), Type::Int))));
}

#[test]
fn syscall_without_arguments_cannot_be_checked() {
    let program = parse("Int main() { return syscall!(); }").expect("program should parse");
    assert!(check_program(program).is_none());
}

#[test]
fn first_error_wins() {
    // both functions are wrong; the first one's error is reported
    let result = checked("Int f() { return True; } Int main() { return x; }");
    assert!(matches!(result, Err(TypeError::WrongReturn(Type::Bool))));
}
