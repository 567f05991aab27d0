use exprparse::ast::{
    Expression, ExpressionStatement, FloatLiteral, InfixExpression, IntegerLiteral, Node, NodeType,
    Statement,
};
use exprparse::document::JsonValue;
use exprparse::lexer::Lexer;
use exprparse::parser::Parser;

fn text(s: &str) -> JsonValue {
    JsonValue::Text(s.to_string())
}

fn field(name: &str, value: JsonValue) -> (String, JsonValue) {
    (name.to_string(), value)
}

#[test]
fn node_type_names() {
    assert_eq!(NodeType::Program.value(), "Program");
    assert_eq!(NodeType::Statement.value(), "Statement");
    assert_eq!(NodeType::Expression.value(), "Expression");
    assert_eq!(NodeType::ExpressionStatement.value(), "ExpressionStatement");
    assert_eq!(NodeType::InfixStatement.value(), "InfixStatement");
    assert_eq!(NodeType::IntegerLiteral.value(), "IntegerLiteral");
    assert_eq!(NodeType::FloatLiteral.value(), "FloatLiteral");
}

#[test]
fn infix_node_reports_infix_statement_type() {
    let node = Node::InfixExpression(InfixExpression::new(
        Node::Expression(Expression::IntegerLiteral(IntegerLiteral::new(1))),
        "+".to_string(),
        Node::Expression(Expression::IntegerLiteral(IntegerLiteral::new(2))),
    ));
    assert_eq!(node.get_type(), NodeType::InfixStatement);
    assert_eq!(
        Statement::ExpressionStatement(ExpressionStatement::new(node)).get_type(),
        NodeType::ExpressionStatement
    );
}

#[test]
fn integer_literal_document() {
    let doc = IntegerLiteral::new(5).json();
    assert_eq!(
        doc,
        JsonValue::Obj(vec![
            field("type", text("IntegerLiteral")),
            field("value", JsonValue::Int(5)),
        ])
    );
}

#[test]
fn float_literal_document_carries_decimal_text() {
    let doc = FloatLiteral::new("3.5".to_string()).json();
    assert_eq!(
        doc,
        JsonValue::Obj(vec![
            field("type", text("FloatLiteral")),
            field("value", JsonValue::Dec("3.5".to_string())),
        ])
    );
}

#[test]
fn infix_document_field_names() {
    let infix = InfixExpression::new(
        Node::Expression(Expression::IntegerLiteral(IntegerLiteral::new(1))),
        "+".to_string(),
        Node::Expression(Expression::IntegerLiteral(IntegerLiteral::new(2))),
    );
    let doc = infix.json();
    assert_eq!(
        doc,
        JsonValue::Obj(vec![
            field("type", text("InfixStatement")),
            field(
                "left_node",
                JsonValue::Obj(vec![
                    field("type", text("IntegerLiteral")),
                    field("value", JsonValue::Int(1)),
                ])
            ),
            field("operator", text("+")),
            field(
                "right_node",
                JsonValue::Obj(vec![
                    field("type", text("IntegerLiteral")),
                    field("value", JsonValue::Int(2)),
                ])
            ),
        ])
    );
}

#[test]
fn program_document_keys_statements_by_kind() {
    let lexer = Lexer::new("7".to_string());
    let mut parser = Parser::new(lexer);
    let program = parser.parse_program();
    assert!(parser.errors().is_empty());
    let doc = program.json();
    let statement_doc = JsonValue::Obj(vec![
        field("type", text("ExpressionStatement")),
        field(
            "expression",
            JsonValue::Obj(vec![
                field("type", text("IntegerLiteral")),
                field("value", JsonValue::Int(7)),
            ]),
        ),
    ]);
    assert_eq!(
        doc,
        JsonValue::Obj(vec![
            field("type", text("Program")),
            field(
                "statements",
                // each entry is keyed by the kind of the node in the
                // statement list, which is the `Statement` wrapper
                JsonValue::Arr(vec![JsonValue::Obj(vec![field("Statement", statement_doc)])])
            ),
        ])
    );
}

#[test]
fn serializing_twice_yields_identical_documents() {
    let lexer = Lexer::new("1 + 2 * 3; (4 - 5) / 6".to_string());
    let mut parser = Parser::new(lexer);
    let program = parser.parse_program();
    let first = program.json();
    let second = program.json();
    assert_eq!(first, second);
}
