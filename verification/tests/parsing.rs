use poo_compiler::abstract_syntax_tree::{
    Expr, Expression, Function, Literal, Operator, Program, Statement, Type, Variable,
};
use poo_compiler::parsing::parse_expression::{expression, function_call};
use poo_compiler::parsing::parse_program::{block, declaration, function, if_stmt, program, statement};
use poo_compiler::parsing::{parse, try_parse, type_, ParseError};

fn var(name: &str) -> Expr {
    Expr(Expression::Var(name.to_string()))
}

fn int_lit(i: i64) -> Expr {
    Expr(Expression::Literal(Literal::Int(i)))
}

fn binary(op: Operator, a: Expr, b: Expr) -> Expr {
    Expr(Expression::BinaryOp(op, Box::new(a), Box::new(b)))
}

#[test]
fn parsing_test_hello_world() {
    let test_string = r#"
            Int main() {
                print("Hello world!");
                return 0;
            }
        "#;
    let res = parse(&test_string);
    assert_eq!(
        res,
        Ok(Program {
            functions: vec![Function {
                return_type: Type::Int,
                arguments: vec![],
                indentifier: "main".to_string(),
                body: vec![
                    Statement::Expression(Expr(Expression::FunctionCall(
                        "print".to_string(),
                        vec![Expr(Expression::Literal(Literal::String("Hello world!".to_string())))]
                    ))),
                    Statement::Return(Expr(Expression::Literal(Literal::Int(0))))
                ]
            }],
            variables: vec![],
        })
    );
}

#[test]
fn test_full_parser() {
    let test_string = "
            Int var1;

            // This is a comment
            // Another comment
            Int function(Int arg1, Bool arg2) {
                Int var2;
                if (arg2) {
                    var2 = 2;
                }
                // Ignore this!
                // And this!
                else {
                    var2 = 3;
                }
                while(arg2) {
                    arg2 = False;
                }

                syscall!(1, 2);

                return 4;
            }
        ";
    let res = parse(&test_string);
    assert_eq!(
        res,
        Ok(Program {
            functions: vec![Function {
                return_type: Type::Int,
                arguments: vec![
                    Variable { type_: Type::Int, identifier: "arg1".to_string() },
                    Variable { type_: Type::Bool, identifier: "arg2".to_string() }
                ],
                indentifier: "function".to_string(),
                body: vec![
                    Statement::Declaration(Variable { type_: Type::Int, identifier: "var2".to_string() }),
                    Statement::If {
                        condition: Expr(Expression::Var("arg2".to_string())),
                        then_branch: vec![Statement::Expression(Expr(Expression::BinaryOp(
                            Operator::Assignment,
                            Box::new(Expr(Expression::Var("var2".to_string()))),
                            Box::new(Expr(Expression::Literal(Literal::Int(2)))),
                        )))],
                        else_branch: vec![Statement::Expression(Expr(Expression::BinaryOp(
                            Operator::Assignment,
                            Box::new(Expr(Expression::Var("var2".to_string()))),
                            Box::new(Expr(Expression::Literal(Literal::Int(3)))),
                        )))]
                    },
                    Statement::While {
                        condition: Expr(Expression::Var("arg2".to_string())),
                        body: vec![Statement::Expression(Expr(Expression::BinaryOp(
                            Operator::Assignment,
                            Box::new(Expr(Expression::Var("arg2".to_string()))),
                            Box::new(Expr(Expression::Literal(Literal::Bool(false)))),
                        )))]
                    },
                    Statement::Expression(Expr(Expression::BuiltInFunctionCall(
                        "syscall".to_string(),
                        vec![
                            Expr(Expression::Literal(Literal::Int(1))),
                            Expr(Expression::Literal(Literal::Int(2)))
                        ]
                    ))),
                    Statement::Return(Expr(Expression::Literal(Literal::Int(4))))
                ]
            }],
            variables: vec![Variable { type_: Type::Int, identifier: "var1".to_string() }],
        })
    );
}

#[test]
fn test_pointer_type() {
    let test_string = r#"&&Int"#;
    let res = type_(&test_string);
    assert_eq!(res, Ok(("", Type::Pointer(Box::new(Type::Pointer(Box::new(Type::Int)))))));
}

#[test]
fn test_parenthesised_test() {
    let test_string = "(a + b) * (c + d)";
    let res = expression(&test_string);
    assert_eq!(
        res,
        Ok((
            "",
            Expression::BinaryOp(
                Operator::Multiplication,
                Box::new(binary(Operator::Addition, var("a"), var("b"))),
                Box::new(binary(Operator::Addition, var("c"), var("d"))),
            )
        ))
    );
}

#[test]
fn test_str_expression() {
    let test_string = r#""HELLO there \r \n \\ \"""#;
    let res = expression(&test_string);
    assert_eq!(
        res,
        Ok(("", Expression::Literal(Literal::String("HELLO there \r \n \\ \"".to_string()))))
    );
}

#[test]
fn parse_expression_test_expression() {
    let test_string = "1+2";
    let res = expression(&test_string);
    assert_eq!(res, Ok(("", Expression::BinaryOp(Operator::Addition, Box::new(int_lit(1)), Box::new(int_lit(2))))));
}

#[test]
fn test_expression_associativity() {
    let test_string = "1+2+3";
    let res = expression(&test_string);
    assert_eq!(
        res,
        Ok((
            "",
            Expression::BinaryOp(
                Operator::Addition,
                Box::new(binary(Operator::Addition, int_lit(1), int_lit(2))),
                Box::new(int_lit(3))
            )
        ))
    );
}

#[test]
fn test_expression_associativity2() {
    let test_string = "var=1*2*3+4+5";
    let res = expression(&test_string);
    assert_eq!(
        res,
        Ok((
            "",
            Expression::BinaryOp(
                Operator::Assignment,
                Box::new(var("var")),
                Box::new(binary(
                    Operator::Addition,
                    binary(
                        Operator::Addition,
                        binary(
                            Operator::Multiplication,
                            binary(Operator::Multiplication, int_lit(1), int_lit(2)),
                            int_lit(3)
                        ),
                        int_lit(4)
                    ),
                    int_lit(5)
                )),
            )
        ))
    );
}

#[test]
fn test_expression_function_call() {
    let test_string = "function(arg1, 2)";
    let res = expression(&test_string);
    assert_eq!(res, Ok(("", Expression::FunctionCall("function".to_string(), vec![var("arg1"), int_lit(2)]))));
}

#[test]
fn test_function_call() {
    let test_string = "function(arg1, 2)";
    let res = function_call(&test_string);
    assert_eq!(res, Ok(("", Expression::FunctionCall("function".to_string(), vec![var("arg1"), int_lit(2)]))));
}

#[test]
fn test_variable() {
    let test_string = " Bool yes ; ";
    let res = declaration(&test_string);
    assert_eq!(res, Ok((" ", (Variable { type_: Type::Bool, identifier: "yes".to_string() }))));
}

#[test]
fn test_variable_program() {
    let test_string = " Bool yes ; Int    no; 
            Int yes2;\t";
    let res = program(&test_string);
    assert_eq!(
        res,
        Ok((
            "",
            (Program {
                variables: vec![
                    Variable { type_: Type::Bool, identifier: "yes".to_string() },
                    Variable { type_: Type::Int, identifier: "no".to_string() },
                    Variable { type_: Type::Int, identifier: "yes2".to_string() },
                ],
                functions: vec![]
            })
        ))
    );
}

fn assign(name: &str, value: Expr) -> Statement<Expr> {
    Statement::Expression(binary(Operator::Assignment, var(name), value))
}

#[test]
fn test_function() {
    let test_string = "
            Int function(Int arg1, Bool arg2) {
                Int var2;
                if (arg2) {
                    var2 = 2;
                }
                else {
                    var2 = 3;
                }
                while(arg2) {
                    arg2 = False;
                }
                return 4;
            }";
    let res = function(&test_string);
    assert_eq!(
        res,
        Ok((
            "",
            Function {
                return_type: Type::Int,
                arguments: vec![
                    Variable { type_: Type::Int, identifier: "arg1".to_string() },
                    Variable { type_: Type::Bool, identifier: "arg2".to_string() }
                ],
                indentifier: "function".to_string(),
                body: vec![
                    Statement::Declaration(Variable { type_: Type::Int, identifier: "var2".to_string() }),
                    Statement::If {
                        condition: var("arg2"),
                        then_branch: vec![assign("var2", int_lit(2))],
                        else_branch: vec![assign("var2", int_lit(3))]
                    },
                    Statement::While {
                        condition: var("arg2"),
                        body: vec![assign("arg2", Expr(Expression::Literal(Literal::Bool(false))))]
                    },
                    Statement::Return(int_lit(4))
                ]
            }
        ))
    );
}

#[test]
fn test_if() {
    let test_string = "
            if (arg2) {
                var2 = 2;
            }
            else {
                var2 = 3;
            }";
    let res = if_stmt(&test_string);
    assert_eq!(
        res,
        Ok((
            "",
            Statement::If {
                condition: var("arg2"),
                then_branch: vec![assign("var2", int_lit(2))],
                else_branch: vec![assign("var2", int_lit(3))]
            }
        ))
    );
}

#[test]
fn test_block() {
    let test_string = "{ var2 = 2; }";
    let res = block(&test_string);
    assert_eq!(res, Ok(("", vec![assign("var2", int_lit(2))])));
}

#[test]
fn test_statement_expr() {
    let test_string = "var2 = 2; ";
    let res = statement(&test_string);
    assert_eq!(res, Ok((" ", assign("var2", int_lit(2)))));
}

#[test]
fn parse_reports_trailing_input() {
    assert_eq!(parse("Int x; garbage"), Err(ParseError::TrailingInput(7)));
}

#[test]
fn try_parse_refuses_an_integer_literal_too_large() {
    assert_eq!(try_parse("Int main() { return 99999999999999999999; }"), None);
    assert!(matches!(try_parse("Int main() { return 9223372036854775807; }"), Some(Ok(_))));
}

#[test]
fn operators_bind_by_level() {
    // comparison binds looser than arithmetic, && looser than ==
    let res = expression("a + 1 < b * 2 == c && d");
    assert_eq!(
        res,
        Ok((
            "",
            Expression::BinaryOp(
                Operator::And,
                Box::new(binary(
                    Operator::Equals,
                    binary(
                        Operator::Less,
                        binary(Operator::Addition, var("a"), int_lit(1)),
                        binary(Operator::Multiplication, var("b"), int_lit(2))
                    ),
                    var("c")
                )),
                Box::new(var("d")),
            )
        ))
    );
}

#[test]
fn assignment_groups_to_the_right() {
    let res = expression("a = b = 3");
    assert_eq!(
        res,
        Ok((
            "",
            Expression::BinaryOp(
                Operator::Assignment,
                Box::new(var("a")),
                Box::new(binary(Operator::Assignment, var("b"), int_lit(3))),
            )
        ))
    );
}

#[test]
fn greater_equals_is_read_as_greater() {
    // `>` is tried before `>=`, so `>=` never matches and the expression stops at `a`
    assert_eq!(expression("a >= b"), Ok((" >= b", Expression::Var("a".to_string()))));
}

#[test]
fn empty_string_literal_is_not_an_expression() {
    assert_eq!(expression("\"\""), Err(ParseError::NoMatch));
}

#[test]
fn comments_need_text_and_a_newline() {
    assert_eq!(declaration("// note\nInt x;"), Ok(("", Variable { type_: Type::Int, identifier: "x".to_string() })));
    assert_eq!(declaration("//\nInt x;"), Err(ParseError::NoMatch));
}

#[test]
fn identifiers_start_lowercase() {
    assert_eq!(expression("Foo"), Err(ParseError::NoMatch));
    assert_eq!(expression("foo_1 + x"), Ok(("", Expression::BinaryOp(Operator::Addition, Box::new(var("foo_1")), Box::new(var("x"))))));
}

#[test]
fn types_are_read_without_lookahead() {
    assert_eq!(type_("Integer"), Ok(("eger", Type::Int)));
    assert_eq!(type_("&x"), Err(ParseError::NoMatch));
}
