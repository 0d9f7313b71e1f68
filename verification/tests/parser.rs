use hul::ast::{BinaryOp, Expr, Literal, LogicalOp, Stmt, UnaryOp};
use hul::parser::Parser;

fn parse(source: &str) -> Result<Vec<Stmt>, String> {
    Parser::new(source)?.parse_program()
}

fn expression(source: &str) -> Expr {
    match parse(source).unwrap().into_iter().next().unwrap() {
        Stmt::Expression(e) => e,
        other => panic!("not an expression statement: {:?}", other),
    }
}

fn var(e: &Expr, name: &str) -> bool {
    matches!(e, Expr::Variable(n) if n == name)
}

#[test]
fn subtraction_is_left_associative() {
    match expression("a - b - c;") {
        Expr::Binary { left, operator: BinaryOp::Sub, right } => {
            assert!(var(&right, "c"));
            assert!(matches!(*left, Expr::Binary { operator: BinaryOp::Sub, .. }));
        }
        other => panic!("{:?}", other),
    }
}

#[test]
fn product_binds_tighter_than_sum() {
    match expression("a + b * c;") {
        Expr::Binary { left, operator: BinaryOp::Add, right } => {
            assert!(var(&left, "a"));
            assert!(matches!(*right, Expr::Binary { operator: BinaryOp::Mul, .. }));
        }
        other => panic!("{:?}", other),
    }
}

#[test]
fn and_binds_tighter_than_or() {
    match expression("a or b and c;") {
        Expr::Logical { left, operator: LogicalOp::Or, right } => {
            assert!(var(&left, "a"));
            assert!(matches!(*right, Expr::Logical { operator: LogicalOp::And, .. }));
        }
        other => panic!("{:?}", other),
    }
}

#[test]
fn unary_operators_nest() {
    match expression("not -x;") {
        Expr::Unary { operator: UnaryOp::Not, right } => {
            assert!(matches!(*right, Expr::Unary { operator: UnaryOp::Negate, .. }));
        }
        other => panic!("{:?}", other),
    }
}

#[test]
fn assignment_is_right_associative() {
    match parse("a = b = 3;").unwrap().into_iter().next().unwrap() {
        Stmt::Assign { name, value } => {
            assert_eq!(name, "a");
            assert!(matches!(value, Expr::Assign { ref name, .. } if name == "b"));
        }
        other => panic!("{:?}", other),
    }
}

#[test]
fn calls_take_arguments() {
    match expression("f(1, g(2))(3);") {
        Expr::Call { callee, arguments } => {
            assert_eq!(arguments.len(), 1);
            assert!(matches!(*callee, Expr::Call { ref arguments, .. } if arguments.len() == 2));
        }
        other => panic!("{:?}", other),
    }
}

#[test]
fn let_without_initializer_parses_as_nil() {
    match parse("let x;").unwrap().into_iter().next().unwrap() {
        Stmt::Let { name, initializer } => {
            assert_eq!(name, "x");
            assert!(matches!(initializer, Expr::Literal(Literal::Nil)));
        }
        other => panic!("{:?}", other),
    }
}

#[test]
fn else_if_nests_an_if() {
    match parse("if (a) { x; } else if (b) { y; } else { z; }").unwrap().into_iter().next().unwrap() {
        Stmt::If { else_branch: Some(els), then_branch, .. } => {
            assert_eq!(then_branch.len(), 1);
            assert_eq!(els.len(), 1);
            assert!(matches!(els[0], Stmt::If { else_branch: Some(_), .. }));
        }
        other => panic!("{:?}", other),
    }
}

#[test]
fn for_clauses_are_optional() {
    match parse("for (;;) { break; }").unwrap().into_iter().next().unwrap() {
        Stmt::For { initializer, condition, increment, body } => {
            assert!(initializer.is_none() && condition.is_none() && increment.is_none());
            assert!(matches!(body[0], Stmt::Break));
        }
        other => panic!("{:?}", other),
    }
}

#[test]
fn function_declaration() {
    match parse("fn add(a, b) { return a + b; }").unwrap().into_iter().next().unwrap() {
        Stmt::Function { name, params, body } => {
            assert_eq!(name, "add");
            assert_eq!(params, vec!["a".to_string(), "b".to_string()]);
            assert!(matches!(body[0], Stmt::Return(_)));
        }
        other => panic!("{:?}", other),
    }
}

#[test]
fn expected_token_errors_name_the_token_found() {
    assert_eq!(parse("if x > 0 { }").unwrap_err(), "Expected '(' at Identifier(\"x\") (1:4)");
    assert_eq!(parse("if (x > 0 { }").unwrap_err(), "Expected ')' at LBrace (1:11)");
    assert_eq!(parse("while (1) {").unwrap_err(), "Expected '}' at end of input");
}

#[test]
fn unexpected_token_error() {
    assert_eq!(parse("let x = + + 1;").unwrap_err(), "Unexpected token Plus at 1:9");
    assert_eq!(parse("let x = ;").unwrap_err(), "Unexpected token Semicolon at 1:9");
}

#[test]
fn recovery_resumes_at_statement_keywords() {
    assert_eq!(parse("let = 1 let y = ; print 1;").unwrap_err(), "Expected variable name\nUnexpected token Semicolon at 1:17");
}

#[test]
fn lexical_errors_come_first() {
    assert_eq!(parse("let s = \"abc").err(), Some("Unterminated string literal at 1:9".to_string()));
    assert_eq!(parse("let x = 1 @").err(), Some("Unexpected character '@' at 1:11".to_string()));
}

#[test]
fn control_characters_are_escaped_in_messages() {
    assert_eq!(parse("if \"a\u{1b}\0\" {").unwrap_err(), "Expected '(' at String(\"a\\u{1b}\\0\") (1:4)");
}

#[test]
fn numbers_in_messages_are_written_as_doubles() {
    assert_eq!(parse("let x = 1 2;").unwrap_err(), "Expected ';' after let at Number(2.0) (1:11)");
    for numeral in [
        "2.50",
        "007",
        "0.0",
        "1.",
        "3.14",
        "0.0001",
        "120.500",
        "0.00001",
        "0.0000120",
        "0.00012",
        "10000000000000000",
        "1200000000000000000.0",
        "123450000000000000000",
        "00012345678901234.5",
    ] {
        let expected = format!("Expected ';' after let at Number({:?}) (1:11)", numeral.parse::<f64>().unwrap());
        assert_eq!(parse(&format!("let x = 1 {};", numeral)).unwrap_err(), expected);
    }
}
