use exprparse::ast::{
    Expression, ExpressionStatement, InfixExpression, IntegerLiteral, Node, Program, Statement,
};
use exprparse::errors::ParseError;
use exprparse::lexer::Lexer;
use exprparse::parser::{Parser, PrecedenceType};
use exprparse::token::TokenType;

fn parse(source: &str) -> (Program, Vec<ParseError>) {
    let lexer = Lexer::new(source.to_string());
    let mut parser = Parser::new(lexer);
    let program = parser.parse_program();
    let errors = parser.errors().clone();
    (program, errors)
}

fn int_lit(value: i64) -> Expression {
    Expression::IntegerLiteral(IntegerLiteral::new(value))
}

fn infix(left: Expression, operator: &str, right: Expression) -> Expression {
    Expression::InfixExpression(InfixExpression::new(
        Node::Expression(left),
        operator.to_string(),
        Node::Expression(right),
    ))
}

fn expr_stmt(expression: Expression) -> Node {
    Node::Statement(Statement::ExpressionStatement(ExpressionStatement::new(
        Node::Expression(expression),
    )))
}

#[test]
fn parses_each_operator() {
    for (source, operator) in [
        ("4 + 5", "+"),
        ("4 - 5", "-"),
        ("4 * 5", "*"),
        ("4 / 5", "/"),
        ("4 ^ 5", "^"),
        ("4 % 5", "%"),
    ] {
        let (program, errors) = parse(source);
        assert!(errors.is_empty(), "unexpected errors for {source}");
        assert_eq!(
            program.statements,
            vec![expr_stmt(infix(int_lit(4), operator, int_lit(5)))],
            "wrong tree for {source}"
        );
    }
}

#[test]
fn multiplication_binds_tighter_on_the_right() {
    let (program, errors) = parse("1 + 2 * 3");
    assert!(errors.is_empty());
    assert_eq!(
        program.statements,
        vec![expr_stmt(infix(int_lit(1), "+", infix(int_lit(2), "*", int_lit(3))))]
    );
}

#[test]
fn multiplication_binds_tighter_on_the_left() {
    let (program, errors) = parse("1 * 2 + 3");
    assert!(errors.is_empty());
    assert_eq!(
        program.statements,
        vec![expr_stmt(infix(infix(int_lit(1), "*", int_lit(2)), "+", int_lit(3)))]
    );
}

#[test]
fn subtraction_associates_left() {
    let (program, errors) = parse("1 - 2 - 3");
    assert!(errors.is_empty());
    assert_eq!(
        program.statements,
        vec![expr_stmt(infix(infix(int_lit(1), "-", int_lit(2)), "-", int_lit(3)))]
    );
}

#[test]
fn power_also_associates_left() {
    let (program, errors) = parse("2 ^ 3 ^ 2");
    assert!(errors.is_empty());
    assert_eq!(
        program.statements,
        vec![expr_stmt(infix(infix(int_lit(2), "^", int_lit(3)), "^", int_lit(2)))]
    );
}

#[test]
fn grouping_overrides_precedence() {
    let (program, errors) = parse("(1 + 2) * 3");
    assert!(errors.is_empty());
    assert_eq!(
        program.statements,
        vec![expr_stmt(infix(infix(int_lit(1), "+", int_lit(2)), "*", int_lit(3)))]
    );
}

#[test]
fn unclosed_group_reports_error_without_panicking() {
    let (program, errors) = parse("(1 + 2");
    assert!(!errors.is_empty());
    assert_eq!(
        errors[0],
        ParseError::ExpectedToken { expected: TokenType::RightParen, got: TokenType::Eof }
    );
    // best-effort structure is still produced
    assert_eq!(program.statements.len(), 1);
}

#[test]
fn semicolon_separates_statements() {
    let (program, errors) = parse("1 + 2; 3.5 * 4");
    assert!(errors.is_empty());
    assert_eq!(program.statements.len(), 2);
    assert_eq!(program.statements[0], expr_stmt(infix(int_lit(1), "+", int_lit(2))));
    let float = Expression::FloatLiteral(exprparse::ast::FloatLiteral::new("3.5".to_string()));
    assert_eq!(program.statements[1], expr_stmt(infix(float, "*", int_lit(4))));
}

#[test]
fn trailing_semicolon_is_optional() {
    let (with, errors_with) = parse("1 + 2;");
    let (without, errors_without) = parse("1 + 2");
    assert!(errors_with.is_empty());
    assert!(errors_without.is_empty());
    assert_eq!(with.statements, without.statements);
    assert_eq!(with.statements.len(), 1);
}

#[test]
fn identifier_has_no_prefix_rule() {
    let (program, errors) = parse("x + 1");
    // recovery substitutes a zero literal without entering the climb, so the
    // stray operator is reconsidered — and rejected — at statement level
    assert_eq!(
        errors,
        vec![
            ParseError::NoPrefixParse(TokenType::Identifier),
            ParseError::UnexpectedToken(TokenType::Plus),
        ]
    );
    assert_eq!(program.statements, vec![expr_stmt(int_lit(0)), expr_stmt(int_lit(1))]);
}

#[test]
fn statement_cannot_start_with_operator() {
    let (program, errors) = parse("+ 1");
    assert_eq!(errors[0], ParseError::UnexpectedToken(TokenType::Plus));
    // the offending token is skipped; "1" still parses as its own statement
    assert_eq!(program.statements, vec![expr_stmt(int_lit(1))]);
}

#[test]
fn integer_literal_wider_than_64_bits_is_an_error() {
    let (program, errors) = parse("99999999999999999999");
    assert_eq!(errors, vec![ParseError::IntegerLiteralOutOfRange]);
    assert_eq!(program.statements, vec![expr_stmt(int_lit(0))]);
}

#[test]
fn largest_integer_literal_parses() {
    let (program, errors) = parse("9223372036854775807");
    assert!(errors.is_empty());
    assert_eq!(program.statements, vec![expr_stmt(int_lit(i64::MAX))]);
}

#[test]
fn malformed_float_literal_is_an_error() {
    let (program, errors) = parse("1.2.3");
    assert_eq!(errors, vec![ParseError::MalformedFloatLiteral]);
    assert_eq!(program.statements, vec![expr_stmt(int_lit(0))]);
}

#[test]
fn error_messages_render_token_kinds() {
    let lexer = Lexer::new("(1".to_string());
    let mut parser = Parser::new(lexer);
    let _ = parser.parse_program();
    let messages = parser.error_messages();
    assert_eq!(messages, vec!["Expected next token to be RightParen, got Eof instead".to_string()]);
}

#[test]
fn empty_source_parses_to_empty_program() {
    let (program, errors) = parse("");
    assert!(errors.is_empty());
    assert!(program.statements.is_empty());
}

#[test]
fn precedence_table() {
    assert_eq!(TokenType::Plus.precedence(), PrecedenceType::Sum);
    assert_eq!(TokenType::Minus.precedence(), PrecedenceType::Sum);
    assert_eq!(TokenType::Asterisk.precedence(), PrecedenceType::Product);
    assert_eq!(TokenType::Slash.precedence(), PrecedenceType::Product);
    assert_eq!(TokenType::Modulus.precedence(), PrecedenceType::Product);
    assert_eq!(TokenType::Pow.precedence(), PrecedenceType::Power);
    assert_eq!(TokenType::Identifier.precedence(), PrecedenceType::Lowest);
    assert_eq!(TokenType::Eof.precedence(), PrecedenceType::Lowest);
    assert!(PrecedenceType::Lowest.level() < PrecedenceType::Sum.level());
    assert!(PrecedenceType::Sum.level() < PrecedenceType::Product.level());
    assert!(PrecedenceType::Product.level() < PrecedenceType::Power.level());
}
