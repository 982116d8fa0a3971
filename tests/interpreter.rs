use lox::ast::{eval, eval_stmt, is_truthy, text_of, visit, Expr, NumericOp, Object, Stmt};
use lox::lox::{Error, Lox};
use lox::parser::{Parse, ParseError, Parser};
use lox::scanner::scan;
use lox::token::{Token, TokenType, Tokens};

fn number(x: f64) -> Object {
    Object::Number(format!("{}", x))
}

fn arith(op: NumericOp, a: &String, b: &String) -> Object {
    let x: f64 = a.parse().unwrap();
    let y: f64 = b.parse().unwrap();
    match op {
        NumericOp::Add => number(x + y),
        NumericOp::Subtract => number(x - y),
        NumericOp::Multiply => number(x * y),
        NumericOp::Divide => number(x / y),
        NumericOp::Negate => number(-1.0 * x),
        NumericOp::Greater => Object::Boolean(x > y),
        NumericOp::GreaterEqual => Object::Boolean(x >= y),
        NumericOp::Less => Object::Boolean(x < y),
        NumericOp::LessEqual => Object::Boolean(x <= y),
        NumericOp::Equal => Object::Boolean(x == y),
        NumericOp::NotEqual => Object::Boolean(x != y),
    }
}

fn statements(source: &str) -> (Vec<Stmt>, Vec<ParseError>) {
    let (tokens, _) = scan(source);
    let mut parser = Parser::new(tokens);
    let stmts = parser.parse();
    let errors = parser.errors().iter().map(|e| e.copy()).collect();
    (stmts, errors)
}

fn tok(token_type: TokenType, lexeme: &str) -> Token {
    Token::new(token_type, lexeme.to_string(), 1)
}

fn lit(text: &str) -> Box<Expr> {
    Box::new(Expr::Literal(Object::Number(text.to_string())))
}

fn run(source: &str) -> Result<Object, Expr> {
    let (stmts, errors) = statements(source);
    assert!(errors.is_empty());
    assert_eq!(stmts.len(), 1);
    eval_stmt(&stmts[0], &arith)
}

#[test]
fn precedence_of_product_over_sum() {
    let (stmts, errors) = statements("1 + 2 * 3;");
    assert!(errors.is_empty());
    let expected = Stmt::Expression(Box::new(Expr::Binary(
        lit("1"),
        tok(TokenType::Plus, "+"),
        Box::new(Expr::Binary(lit("2"), tok(TokenType::Star, "*"), lit("3"))),
    )));
    assert_eq!(stmts, vec![expected]);
}

#[test]
fn operators_fold_to_the_left() {
    let (stmts, _) = statements("1 - 2 - 3;");
    let expected = Stmt::Expression(Box::new(Expr::Binary(
        Box::new(Expr::Binary(lit("1"), tok(TokenType::Minus, "-"), lit("2"))),
        tok(TokenType::Minus, "-"),
        lit("3"),
    )));
    assert_eq!(stmts, vec![expected]);
}

#[test]
fn print_of_concatenated_strings_shows_ab() {
    let (stmts, _) = statements("print \"a\" + \"b\";");
    assert!(stmts[0].is_print());
    let value = eval_stmt(&stmts[0], &arith).unwrap();
    assert_eq!(value, Object::String("ab".to_string()));
    assert_eq!(text_of(&value), "ab");
}

#[test]
fn adding_number_and_string_fails_with_the_binary_node() {
    let result = run("1 + \"a\";");
    let expected = Expr::Binary(
        lit("1"),
        tok(TokenType::Plus, "+"),
        Box::new(Expr::Literal(Object::String("a".to_string()))),
    );
    assert_eq!(result, Err(expected));
}

#[test]
fn two_broken_statements_give_two_errors() {
    let (stmts, errors) = statements("1 + ; 2 * ;");
    assert!(stmts.is_empty());
    assert_eq!(errors.len(), 2);
    assert_eq!(errors[0].message, "Expect expression.");
    assert_eq!(errors[1].token.token_type, TokenType::Semicolon);
}

#[test]
fn recovery_keeps_the_statements_after_an_error() {
    let (stmts, errors) = statements("(1; print 2; 3 4; 5;");
    assert_eq!(errors.len(), 2);
    assert_eq!(errors[0].message, "Expect ')' after expression.");
    assert_eq!(errors[1].message, "Expect ';' after value.");
    assert_eq!(errors[1].place(), " at '4'");
    assert_eq!(stmts.len(), 2);
    assert!(stmts[0].is_print());
    assert_eq!(stmts[1], Stmt::Expression(lit("5")));
}

#[test]
fn syntax_errors_become_diagnostics() {
    let (tokens, _) = scan("1 +;\n(2;");
    let mut parser = Parser::new(tokens);
    parser.parse();
    let mut lox = Lox::new();
    parser.report_to(&mut lox);
    assert_eq!(
        lox.report_string(),
        "[line 1] Error at ';': Expect expression.\n[line 2] Error at ';': Expect ')' after expression.\n"
    );
}

#[test]
fn missing_semicolon_at_end_is_reported_at_end() {
    let (stmts, errors) = statements("1");
    assert!(stmts.is_empty());
    assert_eq!(errors.len(), 1);
    assert_eq!(errors[0].place(), " at end");
}

#[test]
fn test_check_ignoring_tuple_variant() {
    let tokens = Tokens(vec![
        Token::new(TokenType::Identifier, "word".to_string(), 1),
        Token::new(TokenType::EOF, "".to_string(), 1),
    ]);
    let parser = Parser::new(tokens);
    assert!(parser.check(TokenType::Identifier));
}

#[test]
fn test_check_no_match() {
    let tokens = Tokens(vec![
        Token::new(TokenType::Identifier, "word".to_string(), 1),
        Token::new(TokenType::EOF, "".to_string(), 1),
    ]);
    let parser = Parser::new(tokens);
    assert!(!parser.check(TokenType::String));
}

#[test]
fn single_expression_entry_records_and_skips() {
    let (tokens, _) = scan("(1 + ; 2");
    let mut parser = Parser::new(tokens);
    assert!(parser.expression().is_err());
    assert_eq!(parser.errors().len(), 1);
    let next = parser.expression().unwrap();
    assert_eq!(next, Expr::Literal(Object::Number("2".to_string())));
}

#[test]
fn arithmetic_and_comparison_use_the_given_numbers() {
    assert_eq!(run("1 + 2 * 3;"), Ok(Object::Number("7".to_string())));
    assert_eq!(run("(1 + 2) * 3;"), Ok(Object::Number("9".to_string())));
    assert_eq!(run("7 / 2;"), Ok(Object::Number("3.5".to_string())));
    assert_eq!(run("-4;"), Ok(Object::Number("-4".to_string())));
    assert_eq!(run("1 < 2;"), Ok(Object::Boolean(true)));
    assert_eq!(run("2 <= 2;"), Ok(Object::Boolean(true)));
    assert_eq!(run("1.0 == 1;"), Ok(Object::Boolean(true)));
}

#[test]
fn equality_across_kinds_and_truthiness() {
    assert_eq!(run("nil == nil;"), Ok(Object::Boolean(true)));
    assert_eq!(run("nil == false;"), Ok(Object::Boolean(false)));
    assert_eq!(run("\"a\" != 1;"), Ok(Object::Boolean(true)));
    assert_eq!(run("\"x\" == \"x\";"), Ok(Object::Boolean(true)));
    assert_eq!(run("!nil;"), Ok(Object::Boolean(true)));
    assert_eq!(run("!0;"), Ok(Object::Boolean(false)));
    assert_eq!(run("!\"\";"), Ok(Object::Boolean(false)));
    assert!(is_truthy(&Object::Number("0".to_string())));
    assert!(!is_truthy(&Object::Boolean(false)));
}

#[test]
fn negating_a_string_fails_with_its_operand() {
    let result = run("-\"a\";");
    assert_eq!(result, Err(Expr::Literal(Object::String("a".to_string()))));
}

#[test]
fn comparing_strings_fails() {
    let result = run("\"a\" < \"b\";");
    assert!(matches!(result, Err(Expr::Binary(_, _, _))));
}

#[test]
fn error_inside_stops_evaluation_of_the_outer_expression() {
    let inner = Expr::Binary(
        Box::new(Expr::Literal(Object::Boolean(true))),
        tok(TokenType::Star, "*"),
        lit("2"),
    );
    let outer = Expr::Grouping(Box::new(inner.copy()));
    assert_eq!(eval(&outer, &arith), Err(inner));
}

#[test]
fn printing_expressions() {
    let (stmts, _) = statements("-(1 + 2) * \"s\" == nil;");
    match &stmts[0] {
        Stmt::Expression(e) => assert_eq!(visit(e), "(== (* (- (group (+ 1 2))) s) nil)"),
        Stmt::Print(_) => panic!("expected an expression statement"),
    }
    assert_eq!(text_of(&Object::Boolean(true)), "true");
    assert_eq!(text_of(&Object::Nil), "nil");
}

#[test]
fn diagnostics_collector_records_in_order() {
    let mut lox = Lox::new();
    assert!(!lox.has_errors());
    lox.error(3, "bad".to_string());
    lox.report(4, " at end".to_string(), "worse".to_string());
    assert!(lox.has_errors());
    assert_eq!(lox.errors.len(), 2);
    assert_eq!(lox.errors[0].line, 3);
    assert_eq!(lox.errors[0].place, "");
    assert_eq!(lox.errors[1].place, " at end");
    assert_eq!(lox.report_string(), "[line 3] Error: bad\n[line 4] Error at end: worse\n");
    let e = Error::new(1, "p".to_string(), "m".to_string());
    assert_eq!(e.message, "m");
}

#[test]
fn report_writes_multi_digit_lines() {
    let mut lox = Lox::new();
    assert_eq!(lox.report_string(), "");
    lox.error(120, "Invalid character".to_string());
    lox.error(0, "x".to_string());
    assert_eq!(lox.report_string(), "[line 120] Error: Invalid character\n[line 0] Error: x\n");
}
