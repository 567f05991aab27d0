//! The precedence-climbing expression parser: it pulls tokens from the
//! tokenizer two at a time (current and peek) and builds an abstract syntax
//! tree, collecting recoverable errors instead of stopping at the first one.
//!
//! The functions `sp_program`, `sp_statement`, `sp_expr`, `sp_prefix` and
//! `sp_loop` define the parse mathematically, over the token sequence
//! `tok(s, 0), tok(s, 1), ...` of a source text `s`; `Parser::parse_program`
//! is proved to return exactly that parse.

use vstd::prelude::*;

use crate::ast::{
    Expression, ExpressionStatement, ExpressionStatementV, ExpressionV, FloatLiteral,
    InfixExpression, InfixExpressionV, IntegerLiteral, Node, NodeV, Program, Statement, StatementV,
};
use crate::errors::ParseError;
use crate::lexer::{
    is_digit_char, is_number_char, lemma_skip_ws_range, lemma_spec_token_end,
    seq_has_dot, spec_token, token_is, Lexer, SpecToken,
};
use crate::token::{Token, TokenType};

verus! {

/// Operator precedence levels, from loosest to tightest binding. Only `Sum`
/// (`+ -`), `Product` (`* / %`) and `Power` (`^`) are wired to operators; the
/// other levels are reserved for language features that are not implemented.
#[derive(Debug, PartialEq, Eq, PartialOrd, Clone, Copy, Structural)]
pub enum PrecedenceType {
    /// Lowest precedence (e.g., for non-operators)
    Lowest,
    /// == or !=
    Equals,
    /// < or >
    LessGreater,
    /// + or -
    Sum,
    /// * or /
    Product,
    /// ^
    Power,
    /// -x or !x
    Prefix,
    /// Function calls, e.g., add(1, 2)
    Call,
    /// Array indexing, e.g., arr[0]
    Index,
}

impl PrecedenceType {
    /// The numeric rank of this level; a larger rank binds tighter.
    pub open spec fn spec_level(&self) -> nat {
        match self {
            PrecedenceType::Lowest => 0,
            PrecedenceType::Equals => 1,
            PrecedenceType::LessGreater => 2,
            PrecedenceType::Sum => 3,
            PrecedenceType::Product => 4,
            PrecedenceType::Power => 5,
            PrecedenceType::Prefix => 6,
            PrecedenceType::Call => 7,
            PrecedenceType::Index => 8,
        }
    }

    /// The numeric rank of this level, for comparing binding strengths.
    pub fn level(&self) -> (n: u8)
        ensures
            n as nat == self.spec_level(),
    {
        match self {
            PrecedenceType::Lowest => 0,
            PrecedenceType::Equals => 1,
            PrecedenceType::LessGreater => 2,
            PrecedenceType::Sum => 3,
            PrecedenceType::Product => 4,
            PrecedenceType::Power => 5,
            PrecedenceType::Prefix => 6,
            PrecedenceType::Call => 7,
            PrecedenceType::Index => 8,
        }
    }
}

/// The numeric value of a run of decimal digits, most significant first.
pub open spec fn digits_val(s: Seq<char>) -> int
    decreases s.len(),
{
    if s.len() == 0 {
        0
    } else {
        digits_val(s.drop_last()) * 10 + (s.last() as u32 - 48)
    }
}

/// A run of digits has a non-negative value.
pub proof fn lemma_digits_val_nonneg(s: Seq<char>)
    requires
        forall|i: int| 0 <= i < s.len() ==> is_digit_char(s[i]),
    ensures
        digits_val(s) >= 0,
    decreases s.len(),
{
    if s.len() > 0 {
        lemma_digits_val_nonneg(s.drop_last());
    }
}

/// Extending a digit run cannot shrink its value.
pub proof fn lemma_digits_val_prefix_le(s: Seq<char>, k: int)
    requires
        forall|i: int| 0 <= i < s.len() ==> is_digit_char(s[i]),
        0 <= k <= s.len(),
    ensures
        digits_val(s.subrange(0, k)) <= digits_val(s),
    decreases s.len() - k,
{
    if k == s.len() {
        assert(s.subrange(0, k) =~= s);
    } else {
        lemma_digits_val_prefix_le(s, k + 1);
        let a = s.subrange(0, k);
        let b = s.subrange(0, k + 1);
        assert(b.drop_last() =~= a);
        assert(forall|i: int| 0 <= i < a.len() ==> is_digit_char(a[i]));
        lemma_digits_val_nonneg(a);
        assert(digits_val(b) == digits_val(a) * 10 + (s[k] as u32 - 48));
    }
}

/// Parse a run of decimal digits as a 64-bit signed integer; `None` exactly
/// when the value is too wide.
pub fn parse_integer_lexeme(s: &String) -> (r: Option<i64>)
    requires
        forall|i: int| 0 <= i < s@.len() ==> is_digit_char(s@[i]),
    ensures
        match r {
            Some(v) => v == digits_val(s@) && digits_val(s@) <= i64::MAX,
            None => digits_val(s@) > i64::MAX,
        },
{
    let n = s.as_str().unicode_len();
    let mut acc: i64 = 0;
    let mut i: usize = 0;
    proof {
        assert(s@.subrange(0, 0) =~= Seq::<char>::empty());
    }
    while i < n
        invariant
            i <= n,
            n == s@.len(),
            forall|k: int| 0 <= k < s@.len() ==> is_digit_char(s@[k]),
            0 <= acc,
            acc == digits_val(s@.subrange(0, i as int)),
        decreases n - i,
    {
        let c = s.as_str().get_char(i);
        let d = (c as u32 - 48) as i64;
        proof {
            assert(s@.subrange(0, i + 1).drop_last() =~= s@.subrange(0, i as int));
            assert(digits_val(s@.subrange(0, i + 1)) == acc * 10 + d);
        }
        if acc > (i64::MAX - d) / 10 {
            proof {
                lemma_digits_val_prefix_le(s@, i + 1);
            }
            return None;
        }
        acc = acc * 10 + d;
        i = i + 1;
    }
    proof {
        assert(s@.subrange(0, n as int) =~= s@);
    }
    Some(acc)
}

/// How many dots a sequence holds.
pub open spec fn dot_count(s: Seq<char>) -> nat
    decreases s.len(),
{
    if s.len() == 0 {
        0
    } else {
        dot_count(s.drop_last()) + (if s.last() == '.' {
            1nat
        } else {
            0nat
        })
    }
}

/// A well-formed float lexeme: at least two characters, all digits or dots,
/// with exactly one dot (and hence at least one digit).
pub open spec fn is_valid_float_lexeme(s: Seq<char>) -> bool {
    &&& s.len() >= 2
    &&& dot_count(s) == 1
    &&& forall|i: int| 0 <= i < s.len() ==> is_number_char(s[i])
}

/// Whether `s` is a well-formed float lexeme.
pub fn valid_float_lexeme(s: &String) -> (r: bool)
    ensures
        r == is_valid_float_lexeme(s@),
{
    let n = s.as_str().unicode_len();
    if n < 2 {
        return false;
    }
    let mut dots: usize = 0;
    let mut i: usize = 0;
    proof {
        assert(s@.subrange(0, 0) =~= Seq::<char>::empty());
    }
    while i < n
        invariant
            i <= n,
            n == s@.len(),
            dots <= i,
            dots == dot_count(s@.subrange(0, i as int)),
            forall|k: int| 0 <= k < i ==> is_number_char(s@[k]),
        decreases n - i,
    {
        let c = s.as_str().get_char(i);
        proof {
            assert(s@.subrange(0, i + 1).drop_last() =~= s@.subrange(0, i as int));
        }
        if c == '.' {
            dots = dots + 1;
        } else if !crate::lexer::digit_char(c) {
            return false;
        }
        i = i + 1;
    }
    proof {
        assert(s@.subrange(0, n as int) =~= s@);
    }
    dots == 1
}

/// The cursor position at which the tokenizer scans token `k` of source `s`:
/// position 0 for the first token, then the end of each token in turn.
pub open spec fn token_start(s: Seq<char>, k: nat) -> int
    decreases k,
{
    if k == 0 {
        0
    } else {
        spec_token(s, token_start(s, (k - 1) as nat)).end
    }
}

/// Token `k` of source `s`. Past the end of the source this is `Eof`,
/// forever.
pub open spec fn tok(s: Seq<char>, k: nat) -> SpecToken {
    spec_token(s, token_start(s, k))
}

/// Every token start lies within the source.
pub proof fn lemma_token_start_bounds(s: Seq<char>, k: nat)
    ensures
        0 <= token_start(s, k) <= s.len(),
    decreases k,
{
    if k > 0 {
        lemma_token_start_bounds(s, (k - 1) as nat);
        lemma_spec_token_end(s, token_start(s, (k - 1) as nat));
    }
}

/// Token starts never move backwards; a token other than `Eof` advances the
/// cursor, and after an `Eof` token the cursor rests at the end of the source
/// and every later token is `Eof` too.
pub proof fn lemma_token_start_step(s: Seq<char>, k: nat)
    ensures
        token_start(s, k) <= token_start(s, k + 1),
        tok(s, k).kind != TokenType::Eof ==> token_start(s, k + 1) >= token_start(s, k) + 1,
        tok(s, k).kind == TokenType::Eof ==> token_start(s, k + 1) == s.len(),
        tok(s, k).kind == TokenType::Eof ==> tok(s, k + 1).kind == TokenType::Eof,
{
    lemma_token_start_bounds(s, k);
    lemma_spec_token_end(s, token_start(s, k));
    assert(token_start(s, k + 1) == spec_token(s, token_start(s, k)).end);
    if tok(s, k).kind == TokenType::Eof {
        lemma_skip_ws_range(s, s.len() as int);
        assert(crate::lexer::skip_ws(s, s.len() as int) == s.len() as int);
    }
}

/// Token starts are monotone in the token index.
pub proof fn lemma_token_start_mono(s: Seq<char>, k1: nat, k2: nat)
    requires
        k1 <= k2,
    ensures
        token_start(s, k1) <= token_start(s, k2),
    decreases k2 - k1,
{
    if k1 < k2 {
        lemma_token_start_mono(s, k1, (k2 - 1) as nat);
        lemma_token_start_step(s, (k2 - 1) as nat);
    }
}

/// The parser's termination measure: how much source lies at or after the
/// start of token `k`.
pub open spec fn remaining_source(s: Seq<char>, k: nat) -> int {
    if token_start(s, k) <= s.len() {
        s.len() - token_start(s, k)
    } else {
        0
    }
}

/// The token kinds wired as infix operators.
pub open spec fn is_operator(k: TokenType) -> bool {
    ||| k == TokenType::Plus
    ||| k == TokenType::Minus
    ||| k == TokenType::Asterisk
    ||| k == TokenType::Slash
    ||| k == TokenType::Pow
    ||| k == TokenType::Modulus
}

/// The token kinds that may begin a statement.
pub open spec fn statement_starts(k: TokenType) -> bool {
    ||| k == TokenType::Identifier
    ||| k == TokenType::Integer
    ||| k == TokenType::Float
    ||| k == TokenType::LeftParen
}

/// The token kinds a rule exists for at the start of an expression.
pub open spec fn has_prefix_rule(k: TokenType) -> bool {
    ||| k == TokenType::Integer
    ||| k == TokenType::Float
    ||| k == TokenType::LeftParen
}

/// The outcome of parsing one expression: the expression value, the index of
/// the last token it covers, and the errors recorded along the way.
pub struct SpecExpr {
    pub expr: ExpressionV,
    pub last: nat,
    pub errors: Seq<ParseError>,
}

/// The outcome of parsing one statement.
pub struct SpecStmt {
    pub stmt: Option<StatementV>,
    pub last: nat,
    pub errors: Seq<ParseError>,
}

/// The outcome of parsing a whole program from token `k` on.
pub struct SpecProgram {
    pub statements: Seq<NodeV>,
    pub errors: Seq<ParseError>,
}

/// The expression begun by token `i` alone: an integer literal (zero, with an
/// error, when it does not fit 64 bits), a float literal (zero, with an
/// error, when its lexeme is malformed), or a parenthesized group whose
/// closing parenthesis is demanded (an error is recorded when it is absent).
/// Any other token kind yields the recovery placeholder zero with an error.
pub open spec fn sp_prefix(s: Seq<char>, i: nat) -> SpecExpr
    decreases remaining_source(s, i), 1int,
{
    let t = tok(s, i);
    if t.kind == TokenType::Integer {
        if digits_val(t.lexeme) <= i64::MAX {
            SpecExpr {
                expr: ExpressionV::IntegerLiteral(digits_val(t.lexeme) as i64),
                last: i,
                errors: Seq::empty(),
            }
        } else {
            SpecExpr {
                expr: ExpressionV::IntegerLiteral(0),
                last: i,
                errors: seq![ParseError::IntegerLiteralOutOfRange],
            }
        }
    } else if t.kind == TokenType::Float {
        if is_valid_float_lexeme(t.lexeme) {
            SpecExpr { expr: ExpressionV::FloatLiteral(t.lexeme), last: i, errors: Seq::empty() }
        } else {
            SpecExpr {
                expr: ExpressionV::IntegerLiteral(0),
                last: i,
                errors: seq![ParseError::MalformedFloatLiteral],
            }
        }
    } else if t.kind == TokenType::LeftParen {
        proof {
            lemma_token_start_bounds(s, i);
            lemma_token_start_step(s, i);
            lemma_token_start_bounds(s, i + 1);
        }
        let inner = sp_expr(s, i + 1, PrecedenceType::Lowest);
        let j = if inner.last < i + 1 {
            i + 1
        } else {
            inner.last
        };
        if tok(s, j + 1).kind == TokenType::RightParen {
            SpecExpr { expr: inner.expr, last: j + 1, errors: inner.errors }
        } else {
            SpecExpr {
                expr: inner.expr,
                last: j,
                errors: inner.errors.push(
                    ParseError::ExpectedToken {
                        expected: TokenType::RightParen,
                        got: tok(s, j + 1).kind,
                    },
                ),
            }
        }
    } else {
        SpecExpr {
            expr: ExpressionV::IntegerLiteral(0),
            last: i,
            errors: seq![ParseError::NoPrefixParse(t.kind)],
        }
    }
}

/// The expression at token `i`, parsed with binding power `precedence`: the
/// prefix expression at `i`, then every infix operator to its right that
/// binds tighter than `precedence`, folded left-to-right. When no rule can
/// begin an expression at token `i`, the recovery placeholder is returned at
/// once, without the climb: the token after `i` is then reconsidered at
/// statement level.
pub open spec fn sp_expr(s: Seq<char>, i: nat, precedence: PrecedenceType) -> SpecExpr
    decreases remaining_source(s, i), 2int,
{
    let p = sp_prefix(s, i);
    if !has_prefix_rule(tok(s, i).kind) {
        p
    } else {
        let j = if p.last < i {
            i
        } else {
            p.last
        };
        proof {
            lemma_token_start_bounds(s, i);
            lemma_token_start_mono(s, i, j);
            lemma_token_start_bounds(s, j);
        }
        let l = sp_loop(s, p.expr, j, precedence);
        SpecExpr { expr: l.expr, last: l.last, errors: p.errors + l.errors }
    }
}

/// The climbing loop: while the token after `i` is an operator binding
/// tighter than `precedence` (and not a semicolon), parse its right operand
/// at the operator's own precedence and fold it with `left`; equal precedence
/// stops the climb, which makes every operator left-associative.
pub open spec fn sp_loop(s: Seq<char>, left: ExpressionV, i: nat, precedence: PrecedenceType) -> SpecExpr
    decreases remaining_source(s, i), 0int,
{
    let pt = tok(s, i + 1);
    if pt.kind != TokenType::SemiColon && precedence.spec_level()
        < pt.kind.spec_precedence().spec_level() {
        if is_operator(pt.kind) {
            proof {
                lemma_token_start_bounds(s, i);
                lemma_token_start_step(s, i);
                lemma_token_start_step(s, i + 1);
                lemma_token_start_bounds(s, i + 2);
            }
            let r = sp_expr(s, i + 2, pt.kind.spec_precedence());
            let j = if r.last < i + 2 {
                i + 2
            } else {
                r.last
            };
            let folded = ExpressionV::InfixExpression(
                InfixExpressionV {
                    left_node: Box::new(NodeV::Expression(left)),
                    operator: pt.lexeme,
                    right_node: Box::new(NodeV::Expression(r.expr)),
                },
            );
            proof {
                lemma_token_start_mono(s, i + 2, j);
                lemma_token_start_bounds(s, j);
            }
            let rest = sp_loop(s, folded, j, precedence);
            SpecExpr { expr: rest.expr, last: rest.last, errors: r.errors + rest.errors }
        } else {
            SpecExpr { expr: left, last: i, errors: Seq::empty() }
        }
    } else {
        SpecExpr { expr: left, last: i, errors: Seq::empty() }
    }
}

/// The statement begun at token `i`: an expression statement when the token
/// may begin one (consuming one trailing semicolon if present), otherwise no
/// statement and one recorded error.
pub open spec fn sp_statement(s: Seq<char>, i: nat) -> SpecStmt
    decreases remaining_source(s, i), 3int,
{
    let t = tok(s, i);
    if statement_starts(t.kind) {
        let e = sp_expr(s, i, PrecedenceType::Lowest);
        let j = if e.last < i {
            i
        } else {
            e.last
        };
        let j2 = if tok(s, j + 1).kind == TokenType::SemiColon {
            j + 1
        } else {
            j
        };
        SpecStmt {
            stmt: Some(
                StatementV::ExpressionStatement(
                    ExpressionStatementV { expr: Box::new(NodeV::Expression(e.expr)) },
                ),
            ),
            last: j2,
            errors: e.errors,
        }
    } else {
        SpecStmt { stmt: None, last: i, errors: seq![ParseError::UnexpectedToken(t.kind)] }
    }
}

/// The program from token `i` on: one statement per iteration until the
/// current token is `Eof`, skipping a token that could not begin a statement,
/// keeping source order.
pub open spec fn sp_program(s: Seq<char>, i: nat) -> SpecProgram
    decreases remaining_source(s, i), 4int,
{
    if tok(s, i).kind == TokenType::Eof {
        SpecProgram { statements: Seq::empty(), errors: Seq::empty() }
    } else {
        let st = sp_statement(s, i);
        let j = if st.last < i {
            i
        } else {
            st.last
        };
        proof {
            lemma_token_start_bounds(s, i);
            lemma_token_start_step(s, i);
            lemma_token_start_mono(s, i + 1, j + 1);
            lemma_token_start_bounds(s, j + 1);
        }
        let rest = sp_program(s, j + 1);
        SpecProgram {
            statements: (match st.stmt {
                Some(sv) => seq![NodeV::Statement(sv)],
                None => Seq::empty(),
            }) + rest.statements,
            errors: st.errors + rest.errors,
        }
    }
}

/// For any source whose tokens are an integer literal, an infix operator, an
/// integer literal and end-of-input, the parse is a program of exactly one
/// expression statement holding one infix expression: the operator's lexeme
/// between the two literal values, in source order, with no diagnostics.
pub proof fn lemma_parse_infix_tokens(s: Seq<char>, op_kind: TokenType)
    requires
        tok(s, 0).kind == TokenType::Integer,
        digits_val(tok(s, 0).lexeme) <= i64::MAX,
        tok(s, 1).kind == op_kind,
        is_operator(op_kind),
        tok(s, 2).kind == TokenType::Integer,
        digits_val(tok(s, 2).lexeme) <= i64::MAX,
        tok(s, 3).kind == TokenType::Eof,
    ensures
        sp_program(s, 0).errors == Seq::<ParseError>::empty(),
        sp_program(s, 0).statements == seq![
            NodeV::Statement(
                StatementV::ExpressionStatement(
                    ExpressionStatementV {
                        expr: Box::new(
                            NodeV::Expression(
                                ExpressionV::InfixExpression(
                                    InfixExpressionV {
                                        left_node: Box::new(
                                            NodeV::Expression(
                                                ExpressionV::IntegerLiteral(
                                                    digits_val(tok(s, 0).lexeme) as i64,
                                                ),
                                            ),
                                        ),
                                        operator: tok(s, 1).lexeme,
                                        right_node: Box::new(
                                            NodeV::Expression(
                                                ExpressionV::IntegerLiteral(
                                                    digits_val(tok(s, 2).lexeme) as i64,
                                                ),
                                            ),
                                        ),
                                    },
                                ),
                            ),
                        ),
                    },
                ),
            ),
        ],
{
    let av = digits_val(tok(s, 0).lexeme) as i64;
    let bv = digits_val(tok(s, 2).lexeme) as i64;
    let left = ExpressionV::IntegerLiteral(av);
    let right = ExpressionV::IntegerLiteral(bv);
    let folded = ExpressionV::InfixExpression(
        InfixExpressionV {
            left_node: Box::new(NodeV::Expression(left)),
            operator: tok(s, 1).lexeme,
            right_node: Box::new(NodeV::Expression(right)),
        },
    );
    let empty = Seq::<ParseError>::empty();
    assert(empty + empty =~= empty);
    assert(op_kind != TokenType::SemiColon);
    assert(PrecedenceType::Lowest.spec_level() < op_kind.spec_precedence().spec_level());
    assert(sp_prefix(s, 0) == SpecExpr { expr: left, last: 0nat, errors: empty });
    assert(sp_prefix(s, 2) == SpecExpr { expr: right, last: 2nat, errors: empty });
    assert(tok(s, 3).kind.spec_precedence().spec_level() == 0);
    assert(sp_loop(s, right, 2, op_kind.spec_precedence()) == SpecExpr {
        expr: right,
        last: 2nat,
        errors: empty,
    });
    assert(sp_expr(s, 2, op_kind.spec_precedence()) == SpecExpr {
        expr: right,
        last: 2nat,
        errors: empty,
    });
    assert(sp_loop(s, folded, 2, PrecedenceType::Lowest) == SpecExpr {
        expr: folded,
        last: 2nat,
        errors: empty,
    });
    assert(sp_loop(s, left, 0, PrecedenceType::Lowest) == SpecExpr {
        expr: folded,
        last: 2nat,
        errors: empty,
    });
    assert(sp_expr(s, 0, PrecedenceType::Lowest) == SpecExpr {
        expr: folded,
        last: 2nat,
        errors: empty,
    });
    let stmt = StatementV::ExpressionStatement(
        ExpressionStatementV { expr: Box::new(NodeV::Expression(folded)) },
    );
    assert(tok(s, 3).kind != TokenType::SemiColon);
    assert(statement_starts(tok(s, 0).kind));
    assert(sp_statement(s, 0) == SpecStmt { stmt: Some(stmt), last: 2nat, errors: empty });
    assert(sp_program(s, 3).statements == Seq::<NodeV>::empty());
    assert(sp_program(s, 3).errors == empty);
    assert(sp_program(s, 0).statements =~= seq![NodeV::Statement(stmt)]);
    assert(sp_program(s, 0).errors =~= empty);
}

/// Tokenizing `a op b` — a run of digits, a space, one operator character, a
/// space, a run of digits — yields the integer token `a`, the operator token,
/// the integer token `b`, then end-of-input.
pub proof fn lemma_tokens_of_infix_source(a: Seq<char>, opc: char, op_kind: TokenType, b: Seq<char>)
    requires
        a.len() >= 1,
        forall|i: int| 0 <= i < a.len() ==> is_digit_char(a[i]),
        b.len() >= 1,
        forall|i: int| 0 <= i < b.len() ==> is_digit_char(b[i]),
        crate::lexer::symbol_kind(opc) == Some(op_kind),
        is_operator(op_kind),
    ensures
        ({
            let s = a + seq![' '] + seq![opc] + seq![' '] + b;
            &&& tok(s, 0).kind == TokenType::Integer
            &&& tok(s, 0).lexeme == a
            &&& tok(s, 1).kind == op_kind
            &&& tok(s, 1).lexeme == seq![opc]
            &&& tok(s, 2).kind == TokenType::Integer
            &&& tok(s, 2).lexeme == b
            &&& tok(s, 3).kind == TokenType::Eof
        }),
{
    let s = a + seq![' '] + seq![opc] + seq![' '] + b;
    let al = a.len() as int;
    let n = s.len() as int;
    assert(n == al + 3 + b.len());
    assert(forall|i: int| 0 <= i < al ==> s[i] == a[i]);
    assert(s[al] == ' ');
    assert(s[al + 1] == opc);
    assert(s[al + 2] == ' ');
    assert(forall|i: int| 0 <= i < b.len() ==> s[al + 3 + i] == b[i]);
    // token 0: the digits of `a`
    assert(token_start(s, 0) == 0);
    assert(!crate::lexer::is_whitespace_char(s[0]));
    assert(crate::lexer::skip_ws(s, 0) == 0);
    crate::lexer::lemma_number_run_exact(s, 0, al);
    assert(s.subrange(0, al) =~= a);
    assert(forall|i: int| 0 <= i < a.len() ==> a[i] != '.');
    assert(!seq_has_dot(a));
    assert(spec_token(s, 0).kind == TokenType::Integer);
    assert(spec_token(s, 0).lexeme == a);
    assert(token_start(s, 1) == al);
    // token 1: the operator character after one space
    assert(crate::lexer::skip_ws(s, al + 1) == al + 1);
    assert(crate::lexer::skip_ws(s, al) == al + 1);
    assert(spec_token(s, al).kind == op_kind);
    assert(spec_token(s, al).lexeme =~= seq![opc]);
    assert(token_start(s, 2) == al + 2);
    // token 2: the digits of `b` after one space
    assert(crate::lexer::skip_ws(s, al + 3) == al + 3);
    assert(crate::lexer::skip_ws(s, al + 2) == al + 3);
    crate::lexer::lemma_number_run_exact(s, al + 3, n);
    assert(s.subrange(al + 3, n) =~= b);
    assert(forall|i: int| 0 <= i < b.len() ==> b[i] != '.');
    assert(!seq_has_dot(b));
    assert(spec_token(s, al + 2).kind == TokenType::Integer);
    assert(spec_token(s, al + 2).lexeme == b);
    assert(token_start(s, 3) == n);
    // token 3: end-of-input, forever
    assert(crate::lexer::skip_ws(s, n) == n);
    assert(spec_token(s, n).kind == TokenType::Eof);
}

/// For every input `a op b` — two decimal integer literals that fit in 64
/// bits around one of the six infix operators, with single spaces — the parse
/// is a program of exactly one expression statement holding the infix
/// expression of the two literal values under that operator, with no
/// diagnostics. A literal wider than 64 bits is left out here: it parses to
/// the recovery placeholder with a recorded diagnostic instead.
pub proof fn lemma_parse_binary_expression(a: Seq<char>, opc: char, op_kind: TokenType, b: Seq<char>)
    requires
        a.len() >= 1,
        forall|i: int| 0 <= i < a.len() ==> is_digit_char(a[i]),
        digits_val(a) <= i64::MAX,
        b.len() >= 1,
        forall|i: int| 0 <= i < b.len() ==> is_digit_char(b[i]),
        digits_val(b) <= i64::MAX,
        crate::lexer::symbol_kind(opc) == Some(op_kind),
        is_operator(op_kind),
    ensures
        ({
            let s = a + seq![' '] + seq![opc] + seq![' '] + b;
            &&& sp_program(s, 0).errors == Seq::<ParseError>::empty()
            &&& sp_program(s, 0).statements == seq![
                NodeV::Statement(
                    StatementV::ExpressionStatement(
                        ExpressionStatementV {
                            expr: Box::new(
                                NodeV::Expression(
                                    ExpressionV::InfixExpression(
                                        InfixExpressionV {
                                            left_node: Box::new(
                                                NodeV::Expression(
                                                    ExpressionV::IntegerLiteral(
                                                        digits_val(a) as i64,
                                                    ),
                                                ),
                                            ),
                                            operator: seq![opc],
                                            right_node: Box::new(
                                                NodeV::Expression(
                                                    ExpressionV::IntegerLiteral(
                                                        digits_val(b) as i64,
                                                    ),
                                                ),
                                            ),
                                        },
                                    ),
                                ),
                            ),
                        },
                    ),
                ),
            ]
        }),
{
    let s = a + seq![' '] + seq![opc] + seq![' '] + b;
    lemma_tokens_of_infix_source(a, opc, op_kind, b);
    lemma_parse_infix_tokens(s, op_kind);
}

/// For any source whose tokens are an integer literal, an operator, an
/// integer literal, an operator and an integer literal before end-of-input,
/// the parse is one expression statement whose shape follows the operators'
/// binding strengths: a strictly tighter second operator takes the middle
/// literal as its left operand (precedence), and otherwise the first operator
/// folds first (left-associativity; equal strengths fold left).
pub proof fn lemma_parse_two_operators_tokens(s: Seq<char>, op1: TokenType, op2: TokenType)
    requires
        tok(s, 0).kind == TokenType::Integer,
        digits_val(tok(s, 0).lexeme) <= i64::MAX,
        tok(s, 1).kind == op1,
        is_operator(op1),
        tok(s, 2).kind == TokenType::Integer,
        digits_val(tok(s, 2).lexeme) <= i64::MAX,
        tok(s, 3).kind == op2,
        is_operator(op2),
        tok(s, 4).kind == TokenType::Integer,
        digits_val(tok(s, 4).lexeme) <= i64::MAX,
        tok(s, 5).kind == TokenType::Eof,
    ensures
        sp_program(s, 0).errors == Seq::<ParseError>::empty(),
        sp_program(s, 0).statements == seq![
            NodeV::Statement(
                StatementV::ExpressionStatement(
                    ExpressionStatementV {
                        expr: Box::new(
                            NodeV::Expression(
                                two_operator_shape(
                                    ExpressionV::IntegerLiteral(digits_val(tok(s, 0).lexeme) as i64),
                                    tok(s, 1).lexeme,
                                    op1.spec_precedence(),
                                    ExpressionV::IntegerLiteral(digits_val(tok(s, 2).lexeme) as i64),
                                    tok(s, 3).lexeme,
                                    op2.spec_precedence(),
                                    ExpressionV::IntegerLiteral(digits_val(tok(s, 4).lexeme) as i64),
                                ),
                            ),
                        ),
                    },
                ),
            ),
        ],
{
    let la = ExpressionV::IntegerLiteral(digits_val(tok(s, 0).lexeme) as i64);
    let lb = ExpressionV::IntegerLiteral(digits_val(tok(s, 2).lexeme) as i64);
    let lc = ExpressionV::IntegerLiteral(digits_val(tok(s, 4).lexeme) as i64);
    let p1 = op1.spec_precedence();
    let p2 = op2.spec_precedence();
    let empty = Seq::<ParseError>::empty();
    assert(empty + empty =~= empty);
    assert(op1 != TokenType::SemiColon && op2 != TokenType::SemiColon);
    assert(0 < p1.spec_level() && 0 < p2.spec_level());
    assert(tok(s, 5).kind.spec_precedence().spec_level() == 0);
    assert(sp_prefix(s, 0) == SpecExpr { expr: la, last: 0nat, errors: empty });
    assert(sp_prefix(s, 2) == SpecExpr { expr: lb, last: 2nat, errors: empty });
    assert(sp_prefix(s, 4) == SpecExpr { expr: lc, last: 4nat, errors: empty });
    assert(sp_loop(s, lc, 4, p2) == SpecExpr { expr: lc, last: 4nat, errors: empty });
    assert(sp_expr(s, 4, p2) == SpecExpr { expr: lc, last: 4nat, errors: empty });
    let result = if p1.spec_level() < p2.spec_level() {
        // the second operator binds tighter: it takes the middle literal
        let inner = infix_of(lb, tok(s, 3).lexeme, lc);
        assert(sp_loop(s, inner, 4, p1) == SpecExpr { expr: inner, last: 4nat, errors: empty });
        assert(sp_loop(s, lb, 2, p1) == SpecExpr { expr: inner, last: 4nat, errors: empty });
        assert(sp_expr(s, 2, p1) == SpecExpr { expr: inner, last: 4nat, errors: empty });
        let outer = infix_of(la, tok(s, 1).lexeme, inner);
        assert(sp_loop(s, outer, 4, PrecedenceType::Lowest) == SpecExpr {
            expr: outer,
            last: 4nat,
            errors: empty,
        });
        assert(sp_loop(s, la, 0, PrecedenceType::Lowest) == SpecExpr {
            expr: outer,
            last: 4nat,
            errors: empty,
        });
        outer
    } else {
        // the second operator binds no tighter: the first folds first
        assert(sp_loop(s, lb, 2, p1) == SpecExpr { expr: lb, last: 2nat, errors: empty });
        assert(sp_expr(s, 2, p1) == SpecExpr { expr: lb, last: 2nat, errors: empty });
        let first = infix_of(la, tok(s, 1).lexeme, lb);
        let second = infix_of(first, tok(s, 3).lexeme, lc);
        assert(sp_loop(s, second, 4, PrecedenceType::Lowest) == SpecExpr {
            expr: second,
            last: 4nat,
            errors: empty,
        });
        assert(sp_loop(s, first, 2, PrecedenceType::Lowest) == SpecExpr {
            expr: second,
            last: 4nat,
            errors: empty,
        });
        assert(sp_loop(s, la, 0, PrecedenceType::Lowest) == SpecExpr {
            expr: second,
            last: 4nat,
            errors: empty,
        });
        second
    };
    assert(sp_expr(s, 0, PrecedenceType::Lowest) == SpecExpr {
        expr: result,
        last: 4nat,
        errors: empty,
    });
    let stmt = StatementV::ExpressionStatement(
        ExpressionStatementV { expr: Box::new(NodeV::Expression(result)) },
    );
    assert(tok(s, 5).kind != TokenType::SemiColon);
    assert(statement_starts(tok(s, 0).kind));
    assert(sp_statement(s, 0) == SpecStmt { stmt: Some(stmt), last: 4nat, errors: empty });
    assert(sp_program(s, 5).statements == Seq::<NodeV>::empty());
    assert(sp_program(s, 5).errors == empty);
    assert(sp_program(s, 0).statements =~= seq![NodeV::Statement(stmt)]);
    assert(sp_program(s, 0).errors =~= empty);
}

/// The infix expression `left operator right`.
pub open spec fn infix_of(left: ExpressionV, operator: Seq<char>, right: ExpressionV) -> ExpressionV {
    ExpressionV::InfixExpression(
        InfixExpressionV {
            left_node: Box::new(NodeV::Expression(left)),
            operator,
            right_node: Box::new(NodeV::Expression(right)),
        },
    )
}

/// The shape of `a op1 b op2 c` under precedence climbing: the second
/// operator takes `b` exactly when it binds strictly tighter than the first;
/// otherwise — in particular when the strengths are equal — the expression
/// associates to the left.
pub open spec fn two_operator_shape(
    a: ExpressionV,
    op1_lexeme: Seq<char>,
    p1: PrecedenceType,
    b: ExpressionV,
    op2_lexeme: Seq<char>,
    p2: PrecedenceType,
    c: ExpressionV,
) -> ExpressionV {
    if p1.spec_level() < p2.spec_level() {
        infix_of(a, op1_lexeme, infix_of(b, op2_lexeme, c))
    } else {
        infix_of(infix_of(a, op1_lexeme, b), op2_lexeme, c)
    }
}

/// Tokenizing `a op1 b op2 c` — runs of digits and single operator
/// characters, separated by single spaces — yields the three integer tokens
/// and the two operator tokens in order, then end-of-input.
pub proof fn lemma_tokens_of_two_operator_source(
    a: Seq<char>,
    op1c: char,
    op1: TokenType,
    b: Seq<char>,
    op2c: char,
    op2: TokenType,
    c: Seq<char>,
)
    requires
        a.len() >= 1,
        forall|i: int| 0 <= i < a.len() ==> is_digit_char(a[i]),
        b.len() >= 1,
        forall|i: int| 0 <= i < b.len() ==> is_digit_char(b[i]),
        c.len() >= 1,
        forall|i: int| 0 <= i < c.len() ==> is_digit_char(c[i]),
        crate::lexer::symbol_kind(op1c) == Some(op1),
        is_operator(op1),
        crate::lexer::symbol_kind(op2c) == Some(op2),
        is_operator(op2),
    ensures
        ({
            let s = a + seq![' '] + seq![op1c] + seq![' '] + b + seq![' '] + seq![op2c] + seq![' ']
                + c;
            &&& tok(s, 0).kind == TokenType::Integer
            &&& tok(s, 0).lexeme == a
            &&& tok(s, 1).kind == op1
            &&& tok(s, 1).lexeme == seq![op1c]
            &&& tok(s, 2).kind == TokenType::Integer
            &&& tok(s, 2).lexeme == b
            &&& tok(s, 3).kind == op2
            &&& tok(s, 3).lexeme == seq![op2c]
            &&& tok(s, 4).kind == TokenType::Integer
            &&& tok(s, 4).lexeme == c
            &&& tok(s, 5).kind == TokenType::Eof
        }),
{
    let s = a + seq![' '] + seq![op1c] + seq![' '] + b + seq![' '] + seq![op2c] + seq![' '] + c;
    let al = a.len() as int;
    let bl = b.len() as int;
    let n = s.len() as int;
    assert(n == al + bl + c.len() + 6);
    assert(forall|i: int| 0 <= i < al ==> s[i] == a[i]);
    assert(s[al] == ' ');
    assert(s[al + 1] == op1c);
    assert(s[al + 2] == ' ');
    assert(forall|i: int| 0 <= i < bl ==> s[al + 3 + i] == b[i]);
    assert(s[al + 3 + bl] == ' ');
    assert(s[al + 4 + bl] == op2c);
    assert(s[al + 5 + bl] == ' ');
    assert(forall|i: int| 0 <= i < c.len() ==> s[al + 6 + bl + i] == c[i]);
    // token 0: the digits of `a`
    assert(token_start(s, 0) == 0);
    assert(crate::lexer::skip_ws(s, 0) == 0);
    crate::lexer::lemma_number_run_exact(s, 0, al);
    assert(s.subrange(0, al) =~= a);
    assert(forall|i: int| 0 <= i < a.len() ==> a[i] != '.');
    assert(!seq_has_dot(a));
    assert(spec_token(s, 0).kind == TokenType::Integer);
    assert(spec_token(s, 0).lexeme == a);
    assert(token_start(s, 1) == al);
    // token 1: the first operator after one space
    assert(crate::lexer::skip_ws(s, al + 1) == al + 1);
    assert(crate::lexer::skip_ws(s, al) == al + 1);
    assert(spec_token(s, al).kind == op1);
    assert(spec_token(s, al).lexeme =~= seq![op1c]);
    assert(token_start(s, 2) == al + 2);
    // token 2: the digits of `b` after one space
    assert(crate::lexer::skip_ws(s, al + 3) == al + 3);
    assert(crate::lexer::skip_ws(s, al + 2) == al + 3);
    crate::lexer::lemma_number_run_exact(s, al + 3, al + 3 + bl);
    assert(s.subrange(al + 3, al + 3 + bl) =~= b);
    assert(forall|i: int| 0 <= i < b.len() ==> b[i] != '.');
    assert(!seq_has_dot(b));
    assert(spec_token(s, al + 2).kind == TokenType::Integer);
    assert(spec_token(s, al + 2).lexeme == b);
    assert(token_start(s, 3) == al + 3 + bl);
    // token 3: the second operator after one space
    assert(crate::lexer::skip_ws(s, al + 4 + bl) == al + 4 + bl);
    assert(crate::lexer::skip_ws(s, al + 3 + bl) == al + 4 + bl);
    assert(spec_token(s, al + 3 + bl).kind == op2);
    assert(spec_token(s, al + 3 + bl).lexeme =~= seq![op2c]);
    assert(token_start(s, 4) == al + 5 + bl);
    // token 4: the digits of `c` after one space
    assert(crate::lexer::skip_ws(s, al + 6 + bl) == al + 6 + bl);
    assert(crate::lexer::skip_ws(s, al + 5 + bl) == al + 6 + bl);
    crate::lexer::lemma_number_run_exact(s, al + 6 + bl, n);
    assert(s.subrange(al + 6 + bl, n) =~= c);
    assert(forall|i: int| 0 <= i < c.len() ==> c[i] != '.');
    assert(!seq_has_dot(c));
    assert(spec_token(s, al + 5 + bl).kind == TokenType::Integer);
    assert(spec_token(s, al + 5 + bl).lexeme == c);
    assert(token_start(s, 5) == n);
    // token 5: end-of-input
    assert(crate::lexer::skip_ws(s, n) == n);
    assert(spec_token(s, n).kind == TokenType::Eof);
}

/// For every input `a op1 b op2 c` — three decimal integer literals that fit
/// in 64 bits around two of the six infix operators, with single spaces — the
/// parse is one expression statement whose shape follows the operators'
/// binding strengths: a strictly tighter second operator takes `b` as its
/// left operand (precedence), and otherwise — equal strengths included — the
/// expression associates to the left.
pub proof fn lemma_parse_two_operator_expression(
    a: Seq<char>,
    op1c: char,
    op1: TokenType,
    b: Seq<char>,
    op2c: char,
    op2: TokenType,
    c: Seq<char>,
)
    requires
        a.len() >= 1,
        forall|i: int| 0 <= i < a.len() ==> is_digit_char(a[i]),
        digits_val(a) <= i64::MAX,
        b.len() >= 1,
        forall|i: int| 0 <= i < b.len() ==> is_digit_char(b[i]),
        digits_val(b) <= i64::MAX,
        c.len() >= 1,
        forall|i: int| 0 <= i < c.len() ==> is_digit_char(c[i]),
        digits_val(c) <= i64::MAX,
        crate::lexer::symbol_kind(op1c) == Some(op1),
        is_operator(op1),
        crate::lexer::symbol_kind(op2c) == Some(op2),
        is_operator(op2),
    ensures
        ({
            let s = a + seq![' '] + seq![op1c] + seq![' '] + b + seq![' '] + seq![op2c] + seq![' ']
                + c;
            &&& sp_program(s, 0).errors == Seq::<ParseError>::empty()
            &&& sp_program(s, 0).statements == seq![
                NodeV::Statement(
                    StatementV::ExpressionStatement(
                        ExpressionStatementV {
                            expr: Box::new(
                                NodeV::Expression(
                                    two_operator_shape(
                                        ExpressionV::IntegerLiteral(digits_val(a) as i64),
                                        seq![op1c],
                                        op1.spec_precedence(),
                                        ExpressionV::IntegerLiteral(digits_val(b) as i64),
                                        seq![op2c],
                                        op2.spec_precedence(),
                                        ExpressionV::IntegerLiteral(digits_val(c) as i64),
                                    ),
                                ),
                            ),
                        },
                    ),
                ),
            ]
        }),
{
    let s = a + seq![' '] + seq![op1c] + seq![' '] + b + seq![' '] + seq![op2c] + seq![' '] + c;
    lemma_tokens_of_two_operator_source(a, op1c, op1, b, op2c, op2, c);
    lemma_parse_two_operators_tokens(s, op1, op2);
}

/// The streaming expression parser: it owns its tokenizer, holds the current
/// and peek tokens, and records diagnostics instead of failing. The ghost
/// index `idx` tracks which token of the source the current token is.
pub struct Parser {
    lexer: Lexer,
    errors: Vec<ParseError>,
    current_token: Token,
    peek_token: Token,
    idx: Ghost<nat>,
}

impl Parser {
    /// The source text this parser reads.
    pub closed spec fn src(&self) -> Seq<char> {
        self.lexer.source@
    }

    /// The index of the current token in the token sequence of the source.
    pub closed spec fn token_index(&self) -> nat {
        self.idx@
    }

    /// The diagnostics recorded so far, in discovery order.
    pub closed spec fn spec_errors(&self) -> Seq<ParseError> {
        self.errors@
    }

    /// Internal consistency: the tokenizer is well-formed and sits at the
    /// start of the token after peek, and the current and peek tokens are
    /// tokens `token_index()` and `token_index() + 1` of the source.
    pub closed spec fn wf(&self) -> bool {
        &&& self.lexer.wf()
        &&& token_is(self.current_token@, tok(self.src(), self.token_index()))
        &&& token_is(self.peek_token@, tok(self.src(), self.token_index() + 1))
        &&& self.lexer.position as int == token_start(self.src(), self.token_index() + 2)
    }

    /// A parser over a fresh tokenizer, with the first two tokens pulled.
    pub fn new(lexer: Lexer) -> (p: Parser)
        requires
            lexer.wf(),
            lexer.position == 0,
        ensures
            p.wf(),
            p.token_index() == 0,
            p.spec_errors() == Seq::<ParseError>::empty(),
            p.src() == lexer.source@,
    {
        let mut lx = lexer;
        let ghost s = lx.source@;
        proof {
            assert(token_start(s, 0) == 0);
        }
        let current_token = lx.next_token();
        proof {
            assert(token_start(s, 1) == spec_token(s, 0).end);
        }
        let peek_token = lx.next_token();
        proof {
            assert(token_start(s, 2) == spec_token(s, token_start(s, 1)).end);
        }
        Parser { lexer: lx, errors: Vec::new(), current_token, peek_token, idx: Ghost(0nat) }
    }

    /// Pull one token: peek becomes current, the tokenizer supplies a new
    /// peek.
    fn next_token(&mut self)
        requires
            old(self).wf(),
        ensures
            final(self).wf(),
            final(self).src() == old(self).src(),
            final(self).token_index() == old(self).token_index() + 1,
            final(self).spec_errors() == old(self).spec_errors(),
    {
        let ghost s = self.src();
        let ghost k = self.token_index();
        let mut t = self.lexer.next_token();
        core::mem::swap(&mut self.peek_token, &mut t);
        self.current_token = t;
        self.idx = Ghost(k + 1);
        proof {
            assert(token_start(s, k + 3) == spec_token(s, token_start(s, k + 2)).end);
        }
    }

    /// The diagnostics recorded so far, in discovery order.
    pub fn errors(&self) -> (r: &Vec<ParseError>)
        ensures
            r@ == self.spec_errors(),
    {
        &self.errors
    }

    /// The diagnostics recorded so far, rendered as human-readable strings,
    /// in discovery order.
    pub fn error_messages(&self) -> (r: Vec<String>)
        ensures
            r@.len() == self.spec_errors().len(),
            forall|i: int| 0 <= i < r@.len() ==> #[trigger] r@[i]@ == self.spec_errors()[i].spec_message(),
    {
        let mut out: Vec<String> = Vec::new();
        let n = self.errors.len();
        let mut i: usize = 0;
        while i < n
            invariant
                i <= n,
                n == self.errors@.len(),
                out@.len() == i,
                forall|j: int| 0 <= j < i ==> #[trigger] out@[j]@ == self.errors@[j].spec_message(),
            decreases n - i,
        {
            out.push(self.errors[i].message());
            i = i + 1;
        }
        out
    }

    /// Parse the whole program: one statement per iteration until the current
    /// token is end-of-input, in source order. Parsing never aborts: the tree
    /// is exactly the parse that `sp_program` defines, and the diagnostics it
    /// defines are appended to `errors()`.
    pub fn parse_program(&mut self) -> (program: Program)
        requires
            old(self).wf(),
        ensures
            final(self).wf(),
            final(self).src() == old(self).src(),
            program@ == sp_program(old(self).src(), old(self).token_index()).statements,
            final(self).spec_errors() == old(self).spec_errors() + sp_program(
                old(self).src(),
                old(self).token_index(),
            ).errors,
    {
        let ghost s = self.src();
        let ghost i = self.token_index();
        let mut program = Program::new();
        proof {
            assert(program@ =~= Seq::<NodeV>::empty());
        }
        self.parse_statements_into(&mut program);
        proof {
            assert(Seq::<NodeV>::empty() + sp_program(s, i).statements =~= sp_program(
                s,
                i,
            ).statements);
        }
        program
    }

    /// Parse statements until end-of-input, appending each to `program`.
    fn parse_statements_into(&mut self, program: &mut Program)
        requires
            old(self).wf(),
        ensures
            final(self).wf(),
            final(self).src() == old(self).src(),
            old(self).token_index() <= final(self).token_index(),
            ({
                let r = sp_program(old(self).src(), old(self).token_index());
                &&& final(program)@ == old(program)@ + r.statements
                &&& final(self).spec_errors() == old(self).spec_errors() + r.errors
            }),
        decreases remaining_source(self.src(), self.token_index()),
    {
        let ghost s = self.src();
        let ghost i = self.token_index();
        let ghost r = sp_program(s, i);
        if self.current_token.token_type == TokenType::Eof {
            proof {
                assert(old(program)@ + r.statements =~= old(program)@);
                assert(old(self).errors@ + r.errors =~= old(self).errors@);
            }
            return ;
        }
        let stmt = self.parse_statement();
        let ghost sr = sp_statement(s, i);
        match stmt {
            Some(st) => {
                program.add_statement(Node::Statement(st));
                proof {
                    assert(program@ =~= old(program)@.push(NodeV::Statement(st@)));
                }
            },
            None => {},
        }
        self.next_token();
        proof {
            lemma_token_start_bounds(s, i);
            lemma_token_start_step(s, i);
            lemma_token_start_mono(s, i + 1, self.token_index());
            lemma_token_start_bounds(s, self.token_index());
        }
        self.parse_statements_into(program);
        proof {
            let rest = sp_program(s, sr.last + 1);
            match sr.stmt {
                Some(sv) => {
                    assert(old(program)@.push(NodeV::Statement(sv)) =~= old(program)@ + seq![
                        NodeV::Statement(sv),
                    ]);
                    assert((old(program)@ + seq![NodeV::Statement(sv)]) + rest.statements =~= old(
                        program,
                    )@ + (seq![NodeV::Statement(sv)] + rest.statements));
                },
                None => {
                    assert(old(program)@ + rest.statements =~= old(program)@ + (Seq::<
                        NodeV,
                    >::empty() + rest.statements));
                },
            }
            assert((old(self).errors@ + sr.errors) + rest.errors =~= old(self).errors@ + (sr.errors
                + rest.errors));
        }
    }

    /// Parse one statement. A token that cannot begin a statement yields
    /// `None` and one recorded diagnostic.
    fn parse_statement(&mut self) -> (r: Option<Statement>)
        requires
            old(self).wf(),
        ensures
            final(self).wf(),
            final(self).src() == old(self).src(),
            old(self).token_index() <= final(self).token_index(),
            ({
                let sr = sp_statement(old(self).src(), old(self).token_index());
                &&& final(self).token_index() == sr.last
                &&& final(self).spec_errors() == old(self).spec_errors() + sr.errors
                &&& (match r {
                    Some(st) => sr.stmt == Some(st@),
                    None => sr.stmt is None,
                })
            }),
    {
        let kind = self.current_token.token_type;
        if kind == TokenType::Identifier || kind == TokenType::Integer || kind == TokenType::Float
            || kind == TokenType::LeftParen {
            let es = self.parse_expression_statement();
            Some(Statement::ExpressionStatement(es))
        } else {
            self.errors.push(ParseError::UnexpectedToken(kind));
            proof {
                assert(self.errors@ =~= old(self).errors@ + seq![
                    ParseError::UnexpectedToken(kind),
                ]);
            }
            None
        }
    }

    /// Parse one expression statement: the expression at the lowest binding
    /// power, then one trailing semicolon if present.
    fn parse_expression_statement(&mut self) -> (st: ExpressionStatement)
        requires
            old(self).wf(),
        ensures
            final(self).wf(),
            final(self).src() == old(self).src(),
            old(self).token_index() <= final(self).token_index(),
            ({
                let e = sp_expr(old(self).src(), old(self).token_index(), PrecedenceType::Lowest);
                let j = if e.last < old(self).token_index() {
                    old(self).token_index()
                } else {
                    e.last
                };
                let j2 = if tok(old(self).src(), j + 1).kind == TokenType::SemiColon {
                    j + 1
                } else {
                    j
                };
                &&& st@ == (ExpressionStatementV { expr: Box::new(NodeV::Expression(e.expr)) })
                &&& final(self).token_index() == j2
                &&& final(self).spec_errors() == old(self).spec_errors() + e.errors
            }),
    {
        let expr = self.parse_expression(PrecedenceType::Lowest);
        if self.peek_token.token_type == TokenType::SemiColon {
            self.next_token();
        }
        ExpressionStatement::new(Node::Expression(expr))
    }

    /// Parse one expression starting at the current token with the given
    /// binding power. Recovery never fails: where no rule can begin an
    /// expression, a zero integer literal stands in, a diagnostic is
    /// recorded, and the climb is not entered — the next token is left for
    /// the statement level to reconsider.
    fn parse_expression(&mut self, precedence: PrecedenceType) -> (e: Expression)
        requires
            old(self).wf(),
        ensures
            final(self).wf(),
            final(self).src() == old(self).src(),
            old(self).token_index() <= final(self).token_index(),
            ({
                let r = sp_expr(old(self).src(), old(self).token_index(), precedence);
                &&& e@ == r.expr
                &&& final(self).token_index() == r.last
                &&& final(self).spec_errors() == old(self).spec_errors() + r.errors
            }),
        decreases remaining_source(self.src(), self.token_index()), 2int,
    {
        let ghost s = self.src();
        let ghost i = self.token_index();
        let left = match self.current_token.token_type {
            TokenType::Integer => self.parse_int_literal(),
            TokenType::Float => self.parse_float_literal(),
            TokenType::LeftParen => self.parse_grouped_expression(),
            _ => {
                let k = self.current_token.token_type;
                self.errors.push(ParseError::NoPrefixParse(k));
                proof {
                    assert(self.errors@ =~= old(self).errors@ + seq![ParseError::NoPrefixParse(k)]);
                }
                return Expression::IntegerLiteral(IntegerLiteral::new(0));
            },
        };
        let ghost p = sp_prefix(s, i);
        proof {
            lemma_token_start_bounds(s, i);
            lemma_token_start_mono(s, i, self.token_index());
            lemma_token_start_bounds(s, self.token_index());
        }
        let e = self.parse_infix_loop(left, precedence);
        proof {
            let l = sp_loop(s, p.expr, p.last, precedence);
            assert((old(self).errors@ + p.errors) + l.errors =~= old(self).errors@ + (p.errors
                + l.errors));
        }
        e
    }

    /// Fold infix operators onto `left` while the token after the current one
    /// binds tighter than `precedence` and is not a semicolon.
    fn parse_infix_loop(&mut self, left: Expression, precedence: PrecedenceType) -> (e: Expression)
        requires
            old(self).wf(),
        ensures
            final(self).wf(),
            final(self).src() == old(self).src(),
            old(self).token_index() <= final(self).token_index(),
            ({
                let r = sp_loop(old(self).src(), left@, old(self).token_index(), precedence);
                &&& e@ == r.expr
                &&& final(self).token_index() == r.last
                &&& final(self).spec_errors() == old(self).spec_errors() + r.errors
            }),
        decreases remaining_source(self.src(), self.token_index()), 0int,
    {
        let ghost s = self.src();
        let ghost i = self.token_index();
        if self.peek_token.token_type == TokenType::SemiColon {
            proof {
                assert(old(self).errors@ + Seq::<ParseError>::empty() =~= old(self).errors@);
            }
            return left;
        }
        let continue_climb = precedence.level() < self.peek_token.token_type.precedence().level();
        if !continue_climb {
            proof {
                assert(old(self).errors@ + Seq::<ParseError>::empty() =~= old(self).errors@);
            }
            return left;
        }
        proof {
            assert(is_operator(tok(s, i + 1).kind));
            assert(tok(s, i + 1).kind != TokenType::Eof);
        }
        self.next_token();
        let operator = self.current_token.lexeme.clone();
        let op_precedence = self.current_token.token_type.precedence();
        self.next_token();
        proof {
            lemma_token_start_bounds(s, i);
            lemma_token_start_step(s, i);
            lemma_token_start_step(s, i + 1);
            lemma_token_start_bounds(s, i + 2);
        }
        let right = self.parse_expression(op_precedence);
        let ghost rr = sp_expr(s, i + 2, tok(s, i + 1).kind.spec_precedence());
        let folded = Expression::InfixExpression(
            InfixExpression::new(Node::Expression(left), operator, Node::Expression(right)),
        );
        proof {
            lemma_token_start_mono(s, i + 2, self.token_index());
            lemma_token_start_bounds(s, self.token_index());
        }
        let e = self.parse_infix_loop(folded, precedence);
        proof {
            let rest = sp_loop(s, folded@, rr.last, precedence);
            assert((old(self).errors@ + rr.errors) + rest.errors =~= old(self).errors@ + (rr.errors
                + rest.errors));
        }
        e
    }

    /// Parse the current integer literal token; a literal too wide for 64
    /// bits becomes the placeholder zero with a recorded diagnostic.
    fn parse_int_literal(&mut self) -> (e: Expression)
        requires
            old(self).wf(),
            tok(old(self).src(), old(self).token_index()).kind == TokenType::Integer,
        ensures
            final(self).wf(),
            final(self).src() == old(self).src(),
            final(self).token_index() == old(self).token_index(),
            ({
                let r = sp_prefix(old(self).src(), old(self).token_index());
                &&& e@ == r.expr
                &&& final(self).spec_errors() == old(self).spec_errors() + r.errors
            }),
    {
        let ghost s = self.src();
        let ghost i = self.token_index();
        proof {
            lemma_token_start_bounds(s, i);
            crate::lexer::lemma_integer_token_lexeme(s, token_start(s, i));
        }
        match parse_integer_lexeme(&self.current_token.lexeme) {
            Some(v) => {
                proof {
                    assert(old(self).errors@ + Seq::<ParseError>::empty() =~= old(self).errors@);
                }
                Expression::IntegerLiteral(IntegerLiteral::new(v))
            },
            None => {
                self.errors.push(ParseError::IntegerLiteralOutOfRange);
                proof {
                    assert(self.errors@ =~= old(self).errors@ + seq![
                        ParseError::IntegerLiteralOutOfRange,
                    ]);
                }
                Expression::IntegerLiteral(IntegerLiteral::new(0))
            },
        }
    }

    /// Parse the current float literal token; a malformed lexeme becomes the
    /// placeholder zero with a recorded diagnostic.
    fn parse_float_literal(&mut self) -> (e: Expression)
        requires
            old(self).wf(),
            tok(old(self).src(), old(self).token_index()).kind == TokenType::Float,
        ensures
            final(self).wf(),
            final(self).src() == old(self).src(),
            final(self).token_index() == old(self).token_index(),
            ({
                let r = sp_prefix(old(self).src(), old(self).token_index());
                &&& e@ == r.expr
                &&& final(self).spec_errors() == old(self).spec_errors() + r.errors
            }),
    {
        if valid_float_lexeme(&self.current_token.lexeme) {
            let e = Expression::FloatLiteral(FloatLiteral::new(self.current_token.lexeme.clone()));
            proof {
                assert(old(self).errors@ + Seq::<ParseError>::empty() =~= old(self).errors@);
            }
            e
        } else {
            self.errors.push(ParseError::MalformedFloatLiteral);
            proof {
                assert(self.errors@ =~= old(self).errors@ + seq![
                    ParseError::MalformedFloatLiteral,
                ]);
            }
            Expression::IntegerLiteral(IntegerLiteral::new(0))
        }
    }

    /// Parse a parenthesized group: the inner expression at the lowest
    /// binding power, then the closing parenthesis, whose absence is recorded
    /// as a diagnostic rather than a failure.
    fn parse_grouped_expression(&mut self) -> (e: Expression)
        requires
            old(self).wf(),
            tok(old(self).src(), old(self).token_index()).kind == TokenType::LeftParen,
        ensures
            final(self).wf(),
            final(self).src() == old(self).src(),
            old(self).token_index() <= final(self).token_index(),
            ({
                let r = sp_prefix(old(self).src(), old(self).token_index());
                &&& e@ == r.expr
                &&& final(self).token_index() == r.last
                &&& final(self).spec_errors() == old(self).spec_errors() + r.errors
            }),
        decreases remaining_source(self.src(), self.token_index()), 1int,
    {
        let ghost s = self.src();
        let ghost i = self.token_index();
        self.next_token();
        proof {
            lemma_token_start_bounds(s, i);
            lemma_token_start_step(s, i);
            lemma_token_start_bounds(s, i + 1);
        }
        let inner = self.parse_expression(PrecedenceType::Lowest);
        let ghost r_inner = sp_expr(s, i + 1, PrecedenceType::Lowest);
        if self.peek_token.token_type == TokenType::RightParen {
            self.next_token();
            inner
        } else {
            self.errors.push(
                ParseError::ExpectedToken {
                    expected: TokenType::RightParen,
                    got: self.peek_token.token_type,
                },
            );
            proof {
                assert(self.errors@ =~= old(self).errors@ + r_inner.errors.push(
                    ParseError::ExpectedToken {
                        expected: TokenType::RightParen,
                        got: tok(s, r_inner.last + 1).kind,
                    },
                ));
            }
            inner
        }
    }
}

} // verus!
