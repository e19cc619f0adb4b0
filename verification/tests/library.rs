use poo_compiler::abstract_syntax_tree::{Expr, Expression, Function, Literal, Program, Statement, Type, Variable};
use poo_compiler::library::add_library;
use poo_compiler::parsing::parse;

#[test]
fn library_comes_after_program() {
    let mut program = parse("Int count; Int main() { return 0; }").unwrap();
    let lib = "Bool ready; Int one() { return 1; }";
    add_library(&mut program, lib);
    assert_eq!(
        program,
        Program {
            functions: vec![
                Function {
                    return_type: Type::Int,
                    arguments: vec![],
                    indentifier: "main".to_string(),
                    body: vec![Statement::Return(Expr(Expression::Literal(Literal::Int(0))))],
                },
                Function {
                    return_type: Type::Int,
                    arguments: vec![],
                    indentifier: "one".to_string(),
                    body: vec![Statement::Return(Expr(Expression::Literal(Literal::Int(1))))],
                },
            ],
            variables: vec![
                Variable { type_: Type::Int, identifier: "count".to_string() },
                Variable { type_: Type::Bool, identifier: "ready".to_string() },
            ],
        }
    );
}

#[test]
fn empty_library_changes_nothing() {
    let mut program = parse("Int main() { return 0; }").unwrap();
    let before = parse("Int main() { return 0; }").unwrap();
    add_library(&mut program, "");
    assert_eq!(program, before);
}
