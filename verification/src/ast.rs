//! The abstract syntax tree: a `Program` of statements, each wrapping one
//! expression built from integer and float literals and left-associative
//! binary infix operators. Every node serializes to a structured document
//! (see `crate::document`) with a `type` field naming its kind plus
//! kind-specific fields.

use vstd::prelude::*;

use crate::document::{DocV, JsonValue};

verus! {

broadcast use vstd::std_specs::vec::axiom_vec_index_decreases;

/// The kinds of syntax-tree nodes, as named in serialized documents.
#[derive(Debug, Clone, PartialEq, Eq, Structural)]
pub enum NodeType {
    Program,
    Statement,
    Expression,
    ExpressionStatement,
    InfixStatement,
    IntegerLiteral,
    FloatLiteral,
}

impl NodeType {
    /// The display name of this node kind.
    pub open spec fn spec_value(&self) -> Seq<char> {
        match self {
            NodeType::Program => "Program"@,
            NodeType::Statement => "Statement"@,
            NodeType::Expression => "Expression"@,
            NodeType::ExpressionStatement => "ExpressionStatement"@,
            NodeType::InfixStatement => "InfixStatement"@,
            NodeType::IntegerLiteral => "IntegerLiteral"@,
            NodeType::FloatLiteral => "FloatLiteral"@,
        }
    }

    /// The display name of this node kind.
    pub fn value(&self) -> (r: &'static str)
        ensures
            r@ == self.spec_value(),
    {
        match self {
            NodeType::Program => "Program",
            NodeType::Statement => "Statement",
            NodeType::Expression => "Expression",
            NodeType::ExpressionStatement => "ExpressionStatement",
            NodeType::InfixStatement => "InfixStatement",
            NodeType::IntegerLiteral => "IntegerLiteral",
            NodeType::FloatLiteral => "FloatLiteral",
        }
    }
}

/// The mathematical value of a syntax-tree node.
pub enum NodeV {
    Program(Seq<NodeV>),
    Statement(StatementV),
    Expression(ExpressionV),
    ExpressionStatement(ExpressionStatementV),
    InfixExpression(InfixExpressionV),
    IntegerLiteral(i64),
    FloatLiteral(Seq<char>),
}

/// The mathematical value of a statement.
pub enum StatementV {
    ExpressionStatement(ExpressionStatementV),
}

/// The mathematical value of an expression statement.
pub struct ExpressionStatementV {
    pub expr: Box<NodeV>,
}

/// The mathematical value of an infix expression.
pub struct InfixExpressionV {
    pub left_node: Box<NodeV>,
    pub operator: Seq<char>,
    pub right_node: Box<NodeV>,
}

/// The mathematical value of an expression.
pub enum ExpressionV {
    InfixExpression(InfixExpressionV),
    IntegerLiteral(i64),
    FloatLiteral(Seq<char>),
}

/// A syntax-tree node of any kind.
#[derive(Debug, PartialEq)]
pub enum Node {
    Program(Program),
    Statement(Statement),
    Expression(Expression),
    ExpressionStatement(ExpressionStatement),
    InfixExpression(InfixExpression),
    IntegerLiteral(IntegerLiteral),
    FloatLiteral(FloatLiteral),
}

/// The root node: the ordered sequence of top-level statements, in source
/// order.
#[derive(Debug, PartialEq)]
pub struct Program {
    pub statements: Vec<Node>,
}

/// A statement holding exactly one expression, optionally terminated by a
/// semicolon in the source.
#[derive(Debug, PartialEq)]
pub struct ExpressionStatement {
    pub expr: Box<Node>,
}

/// A binary infix application: `left operator right`. The children are owned
/// exclusively by this node.
#[derive(Debug, PartialEq)]
pub struct InfixExpression {
    pub left_node: Box<Node>,
    pub operator: String,
    pub right_node: Box<Node>,
}

/// A 64-bit signed integer literal.
#[derive(Debug, PartialEq)]
pub struct IntegerLiteral {
    pub value: i64,
}

/// A float literal, carried as its decimal source text: a run of digits
/// holding exactly one dot. The text form keeps the tree free of floating
/// point; a consumer converts it where it needs a binary value.
#[derive(Debug, PartialEq)]
pub struct FloatLiteral {
    pub lexeme: String,
}

/// A statement of any kind; only expression statements exist.
#[derive(Debug, PartialEq)]
pub enum Statement {
    ExpressionStatement(ExpressionStatement),
}

/// An expression of any kind.
#[derive(Debug, PartialEq)]
pub enum Expression {
    InfixExpression(InfixExpression),
    IntegerLiteral(IntegerLiteral),
    FloatLiteral(FloatLiteral),
}

/// The mathematical value of a node.
pub open spec fn node_view(n: Node) -> NodeV
    decreases n,
{
    match n {
        Node::Program(p) => NodeV::Program(program_view(p)),
        Node::Statement(st) => NodeV::Statement(statement_view(st)),
        Node::Expression(e) => NodeV::Expression(expression_view(e)),
        Node::ExpressionStatement(es) => NodeV::ExpressionStatement(expression_statement_view(es)),
        Node::InfixExpression(ie) => NodeV::InfixExpression(infix_expression_view(ie)),
        Node::IntegerLiteral(il) => NodeV::IntegerLiteral(il.value),
        Node::FloatLiteral(fl) => NodeV::FloatLiteral(fl.lexeme@),
    }
}

/// The mathematical value of a program: its statements' values, in order.
pub open spec fn program_view(p: Program) -> Seq<NodeV>
    decreases p,
{
    Seq::new(
        p.statements@.len(),
        |i: int|
            if 0 <= i < p.statements@.len() {
                node_view(p.statements@[i])
            } else {
                NodeV::IntegerLiteral(0)
            },
    )
}

/// The mathematical value of a statement.
pub open spec fn statement_view(s: Statement) -> StatementV
    decreases s,
{
    match s {
        Statement::ExpressionStatement(es) => StatementV::ExpressionStatement(
            expression_statement_view(es),
        ),
    }
}

/// The mathematical value of an expression statement.
pub open spec fn expression_statement_view(es: ExpressionStatement) -> ExpressionStatementV
    decreases es,
{
    ExpressionStatementV { expr: Box::new(node_view(*es.expr)) }
}

/// The mathematical value of an infix expression.
pub open spec fn infix_expression_view(ie: InfixExpression) -> InfixExpressionV
    decreases ie,
{
    InfixExpressionV {
        left_node: Box::new(node_view(*ie.left_node)),
        operator: ie.operator@,
        right_node: Box::new(node_view(*ie.right_node)),
    }
}

/// The mathematical value of an expression.
pub open spec fn expression_view(e: Expression) -> ExpressionV
    decreases e,
{
    match e {
        Expression::InfixExpression(ie) => ExpressionV::InfixExpression(infix_expression_view(ie)),
        Expression::IntegerLiteral(il) => ExpressionV::IntegerLiteral(il.value),
        Expression::FloatLiteral(fl) => ExpressionV::FloatLiteral(fl.lexeme@),
    }
}

impl View for Node {
    type V = NodeV;

    open spec fn view(&self) -> NodeV {
        node_view(*self)
    }
}

impl View for Program {
    type V = Seq<NodeV>;

    open spec fn view(&self) -> Seq<NodeV> {
        program_view(*self)
    }
}

impl View for Statement {
    type V = StatementV;

    open spec fn view(&self) -> StatementV {
        statement_view(*self)
    }
}

impl View for ExpressionStatement {
    type V = ExpressionStatementV;

    open spec fn view(&self) -> ExpressionStatementV {
        expression_statement_view(*self)
    }
}

impl View for InfixExpression {
    type V = InfixExpressionV;

    open spec fn view(&self) -> InfixExpressionV {
        infix_expression_view(*self)
    }
}

impl View for Expression {
    type V = ExpressionV;

    open spec fn view(&self) -> ExpressionV {
        expression_view(*self)
    }
}

/// The kind of a node value.
pub open spec fn node_type_of(n: NodeV) -> NodeType {
    match n {
        NodeV::Program(_) => NodeType::Program,
        NodeV::Statement(_) => NodeType::Statement,
        NodeV::Expression(_) => NodeType::Expression,
        NodeV::ExpressionStatement(_) => NodeType::ExpressionStatement,
        NodeV::InfixExpression(_) => NodeType::InfixStatement,
        NodeV::IntegerLiteral(_) => NodeType::IntegerLiteral,
        NodeV::FloatLiteral(_) => NodeType::FloatLiteral,
    }
}

/// The kind of an expression value.
pub open spec fn expression_type_of(e: ExpressionV) -> NodeType {
    match e {
        ExpressionV::InfixExpression(_) => NodeType::InfixStatement,
        ExpressionV::IntegerLiteral(_) => NodeType::IntegerLiteral,
        ExpressionV::FloatLiteral(_) => NodeType::FloatLiteral,
    }
}

/// The structured document of an integer literal node.
pub open spec fn doc_of_integer(value: i64) -> DocV {
    DocV::Obj(
        seq![("type"@, DocV::Text("IntegerLiteral"@)), ("value"@, DocV::Int(value))],
    )
}

/// The structured document of a float literal node.
pub open spec fn doc_of_float(lexeme: Seq<char>) -> DocV {
    DocV::Obj(seq![("type"@, DocV::Text("FloatLiteral"@)), ("value"@, DocV::Dec(lexeme))])
}

/// The structured document of a node: a `type` field naming its kind, plus
/// kind-specific fields. A program lists its statements in order, each entry
/// keyed by the statement's kind name; an expression statement nests its
/// expression under `expression`; an infix expression nests its children
/// under `left_node` and `right_node` with the operator text under
/// `operator`; literals carry their numeric `value`.
pub open spec fn doc_of_node(n: NodeV) -> DocV
    decreases n,
{
    match n {
        NodeV::Program(stmts) => DocV::Obj(
            seq![
                ("type"@, DocV::Text("Program"@)),
                (
                    "statements"@,
                    DocV::Arr(
                        Seq::new(
                            stmts.len(),
                            |i: int|
                                if 0 <= i < stmts.len() {
                                    DocV::Obj(
                                        seq![
                                            (node_type_of(stmts[i]).spec_value(), doc_of_node(stmts[i])),
                                        ],
                                    )
                                } else {
                                    DocV::Int(0)
                                },
                        ),
                    ),
                ),
            ],
        ),
        NodeV::Statement(st) => doc_of_statement(st),
        NodeV::Expression(e) => doc_of_expression(e),
        NodeV::ExpressionStatement(es) => doc_of_expression_statement(es),
        NodeV::InfixExpression(ie) => doc_of_infix_expression(ie),
        NodeV::IntegerLiteral(value) => doc_of_integer(value),
        NodeV::FloatLiteral(lexeme) => doc_of_float(lexeme),
    }
}

/// The structured document of a statement.
pub open spec fn doc_of_statement(s: StatementV) -> DocV
    decreases s,
{
    match s {
        StatementV::ExpressionStatement(es) => doc_of_expression_statement(es),
    }
}

/// The structured document of an expression statement.
pub open spec fn doc_of_expression_statement(es: ExpressionStatementV) -> DocV
    decreases es,
{
    DocV::Obj(
        seq![
            ("type"@, DocV::Text("ExpressionStatement"@)),
            ("expression"@, doc_of_node(*es.expr)),
        ],
    )
}

/// The structured document of an infix expression.
pub open spec fn doc_of_infix_expression(ie: InfixExpressionV) -> DocV
    decreases ie,
{
    DocV::Obj(
        seq![
            ("type"@, DocV::Text("InfixStatement"@)),
            ("left_node"@, doc_of_node(*ie.left_node)),
            ("operator"@, DocV::Text(ie.operator)),
            ("right_node"@, doc_of_node(*ie.right_node)),
        ],
    )
}

/// The structured document of an expression.
pub open spec fn doc_of_expression(e: ExpressionV) -> DocV
    decreases e,
{
    match e {
        ExpressionV::InfixExpression(ie) => doc_of_infix_expression(ie),
        ExpressionV::IntegerLiteral(value) => doc_of_integer(value),
        ExpressionV::FloatLiteral(lexeme) => doc_of_float(lexeme),
    }
}

/// Serializing is a function of the tree alone: any two structured documents
/// produced for one node value are equal, so serializing twice yields
/// identical documents.
pub proof fn lemma_serialization_idempotent(n: NodeV, d1: JsonValue, d2: JsonValue)
    requires
        d1@ == doc_of_node(n),
        d2@ == doc_of_node(n),
    ensures
        d1@ == d2@,
{
}

impl Node {
    /// The kind of this node.
    pub fn get_type(&self) -> (t: NodeType)
        ensures
            t == node_type_of(self@),
    {
        match self {
            Node::Program(_) => NodeType::Program,
            Node::Statement(_) => NodeType::Statement,
            Node::Expression(_) => NodeType::Expression,
            Node::ExpressionStatement(_) => NodeType::ExpressionStatement,
            Node::InfixExpression(_) => NodeType::InfixStatement,
            Node::IntegerLiteral(_) => NodeType::IntegerLiteral,
            Node::FloatLiteral(_) => NodeType::FloatLiteral,
        }
    }

    /// The structured document of this node.
    pub fn json(&self) -> (doc: JsonValue)
        ensures
            doc@ == doc_of_node(self@),
        decreases *self,
    {
        match self {
            Node::Program(program) => program.json(),
            Node::Statement(stmt) => stmt.json(),
            Node::Expression(expr) => expr.json(),
            Node::ExpressionStatement(expr_stmt) => expr_stmt.json(),
            Node::InfixExpression(infix_expr) => infix_expr.json(),
            Node::IntegerLiteral(int_lit) => int_lit.json(),
            Node::FloatLiteral(float_lit) => float_lit.json(),
        }
    }
}

impl Program {
    /// An empty program.
    pub fn new() -> (p: Self)
        ensures
            p.statements@ =~= Seq::<Node>::empty(),
    {
        Program { statements: Vec::new() }
    }

    /// Append one statement; the statements already present keep their order.
    pub fn add_statement(&mut self, statement: Node)
        ensures
            final (self).statements@ == old(self).statements@.push(statement),
    {
        self.statements.push(statement);
    }

    /// The structured document of this program: its `type` name and its
    /// statements in order, each keyed by its own kind name.
    pub fn json(&self) -> (doc: JsonValue)
        ensures
            doc@ == doc_of_node(NodeV::Program(self@)),
        decreases *self,
    {
        let ghost target = doc_of_node(NodeV::Program(self@));
        let mut statements_json: Vec<JsonValue> = Vec::new();
        let n = self.statements.len();
        let mut i: usize = 0;
        while i < n
            invariant
                n == self.statements@.len(),
                i <= n,
                statements_json@.len() == i,
                forall|j: int|
                    0 <= j < i ==> #[trigger] crate::document::json_value_view(statements_json@[j])
                        == DocV::Obj(
                        seq![
                            (
                                node_type_of(node_view(self.statements@[j])).spec_value(),
                                doc_of_node(node_view(self.statements@[j])),
                            ),
                        ],
                    ),
            decreases n - i,
        {
            let stmt = &self.statements[i];
            proof {
                assert(decreases_to!(*self => *stmt));
            }
            let key = stmt.get_type().value();
            let nested = stmt.json();
            let mut entry: Vec<(String, JsonValue)> = Vec::new();
            entry.push((String::from_str(key), nested));
            let entry_doc = JsonValue::Obj(entry);
            proof {
                let ghost want = DocV::Obj(
                    seq![
                        (
                            node_type_of(node_view(self.statements@[i as int])).spec_value(),
                            doc_of_node(node_view(self.statements@[i as int])),
                        ),
                    ],
                );
                assert(nested@ == crate::document::json_value_view(nested));
                assert((crate::document::json_value_view(entry_doc))->Obj_0 =~= want->Obj_0);
                assert(crate::document::json_value_view(entry_doc) == want);
            }
            statements_json.push(entry_doc);
            i = i + 1;
        }
        let mut fields: Vec<(String, JsonValue)> = Vec::new();
        fields.push((String::from_str("type"), JsonValue::Text(String::from_str("Program"))));
        fields.push((String::from_str("statements"), JsonValue::Arr(statements_json)));
        let doc = JsonValue::Obj(fields);
        proof {
            reveal_with_fuel(crate::document::json_value_view, 3);
            let stmts = self@;
            let fv = fields@;
            let sj = (fv[1].1)->Arr_0;
            let inner = ((target->Obj_0)[1].1)->Arr_0;
            assert(sj.len() == stmts.len());
            assert forall|k: int| 0 <= k < stmts.len() implies crate::document::json_value_view(
                sj[k],
            ) == inner[k] by {
                assert(stmts[k] == node_view(self.statements@[k]));
            }
            assert((crate::document::json_value_view(fv[1].1))->Arr_0 =~= inner);
            assert(crate::document::json_value_view(fv[1].1) == (target->Obj_0)[1].1);
            assert((doc@)->Obj_0 =~= target->Obj_0);
            assert(doc@ == target);
        }
        doc
    }
}

impl ExpressionStatement {
    /// A statement wrapping the given expression node.
    pub fn new(expr: Node) -> (s: Self)
        ensures
            *s.expr == expr,
    {
        ExpressionStatement { expr: Box::new(expr) }
    }

    /// The structured document of this statement: its `type` name and its
    /// expression's document under `expression`.
    pub fn json(&self) -> (doc: JsonValue)
        ensures
            doc@ == doc_of_expression_statement(self@),
        decreases *self,
    {
        let nested = self.expr.json();
        let mut fields: Vec<(String, JsonValue)> = Vec::new();
        fields.push(
            (String::from_str("type"), JsonValue::Text(String::from_str("ExpressionStatement"))),
        );
        fields.push((String::from_str("expression"), nested));
        let doc = JsonValue::Obj(fields);
        proof {
            reveal_with_fuel(crate::document::json_value_view, 3);
            assert((doc@)->Obj_0 =~= (doc_of_expression_statement(self@))->Obj_0);
        }
        doc
    }
}

impl InfixExpression {
    /// An infix node applying `operator` to the two children, in order.
    pub fn new(left_node: Node, operator: String, right_node: Node) -> (e: Self)
        ensures
            *e.left_node == left_node,
            e.operator == operator,
            *e.right_node == right_node,
    {
        InfixExpression { left_node: Box::new(left_node), operator, right_node: Box::new(
            right_node,
        ) }
    }

    /// The structured document of this infix expression: its `type` name, the
    /// children's documents under `left_node` and `right_node`, and the
    /// operator text under `operator`.
    pub fn json(&self) -> (doc: JsonValue)
        ensures
            doc@ == doc_of_infix_expression(self@),
        decreases *self,
    {
        let left = self.left_node.json();
        let right = self.right_node.json();
        let mut fields: Vec<(String, JsonValue)> = Vec::new();
        fields.push((String::from_str("type"), JsonValue::Text(String::from_str("InfixStatement"))));
        fields.push((String::from_str("left_node"), left));
        fields.push((String::from_str("operator"), JsonValue::Text(self.operator.clone())));
        fields.push((String::from_str("right_node"), right));
        let doc = JsonValue::Obj(fields);
        proof {
            reveal_with_fuel(crate::document::json_value_view, 3);
            assert((doc@)->Obj_0 =~= (doc_of_infix_expression(self@))->Obj_0);
        }
        doc
    }
}

impl IntegerLiteral {
    /// An integer literal holding exactly the given value.
    pub fn new(value: i64) -> (l: Self)
        ensures
            l.value == value,
    {
        IntegerLiteral { value }
    }

    /// The structured document of this literal: its `type` name and its
    /// numeric `value`.
    pub fn json(&self) -> (doc: JsonValue)
        ensures
            doc@ == doc_of_integer(self.value),
    {
        let mut fields: Vec<(String, JsonValue)> = Vec::new();
        fields.push((String::from_str("type"), JsonValue::Text(String::from_str("IntegerLiteral"))));
        fields.push((String::from_str("value"), JsonValue::Int(self.value)));
        let doc = JsonValue::Obj(fields);
        proof {
            reveal_with_fuel(crate::document::json_value_view, 3);
            assert((doc@)->Obj_0 =~= (doc_of_integer(self.value))->Obj_0);
        }
        doc
    }
}

impl FloatLiteral {
    /// A float literal holding exactly the given decimal text.
    pub fn new(lexeme: String) -> (l: Self)
        ensures
            l.lexeme == lexeme,
    {
        FloatLiteral { lexeme }
    }

    /// The structured document of this literal: its `type` name and its
    /// decimal text under `value`.
    pub fn json(&self) -> (doc: JsonValue)
        ensures
            doc@ == doc_of_float(self.lexeme@),
    {
        let mut fields: Vec<(String, JsonValue)> = Vec::new();
        fields.push((String::from_str("type"), JsonValue::Text(String::from_str("FloatLiteral"))));
        fields.push((String::from_str("value"), JsonValue::Dec(self.lexeme.clone())));
        let doc = JsonValue::Obj(fields);
        proof {
            reveal_with_fuel(crate::document::json_value_view, 3);
            assert((doc@)->Obj_0 =~= (doc_of_float(self.lexeme@))->Obj_0);
        }
        doc
    }
}

impl Expression {
    /// The kind of this expression.
    pub fn get_type(&self) -> (t: NodeType)
        ensures
            t == expression_type_of(self@),
    {
        match self {
            Expression::InfixExpression(_) => NodeType::InfixStatement,
            Expression::IntegerLiteral(_) => NodeType::IntegerLiteral,
            Expression::FloatLiteral(_) => NodeType::FloatLiteral,
        }
    }

    /// The structured document of this expression.
    pub fn json(&self) -> (doc: JsonValue)
        ensures
            doc@ == doc_of_expression(self@),
        decreases *self,
    {
        match self {
            Expression::InfixExpression(infix_expr) => infix_expr.json(),
            Expression::IntegerLiteral(int_lit) => int_lit.json(),
            Expression::FloatLiteral(float_lit) => float_lit.json(),
        }
    }
}

impl Statement {
    /// The kind of this statement.
    pub fn get_type(&self) -> (t: NodeType)
        ensures
            t == NodeType::ExpressionStatement,
    {
        match self {
            Statement::ExpressionStatement(_) => NodeType::ExpressionStatement,
        }
    }

    /// The structured document of this statement.
    pub fn json(&self) -> (doc: JsonValue)
        ensures
            doc@ == doc_of_statement(self@),
        decreases *self,
    {
        match self {
            Statement::ExpressionStatement(expr_stmt) => expr_stmt.json(),
        }
    }
}

} // verus!
