//! Lexical tokens: the smallest units the tokenizer emits, each with a kind,
//! the literal source text it covers, and its source position.

use vstd::prelude::*;

use crate::parser::PrecedenceType;

verus! {

/// The closed set of token kinds the tokenizer can produce.
#[derive(Debug, PartialEq, Eq, Hash, Copy, Clone, Structural)]
pub enum TokenType {
    // Variables
    Identifier,
    // Data types
    Integer,
    Float,
    // Arithmetic operators
    Plus,
    Minus,
    Asterisk,
    Slash,
    Pow,
    Modulus,
    // Symbols
    SemiColon,
    LeftParen,
    RightParen,
    // Errors
    Eof,
    Illegal,
}

impl TokenType {
    /// The binding strength this kind has when it stands between two operands.
    /// Kinds that are not infix operators bind lowest.
    pub open spec fn spec_precedence(&self) -> PrecedenceType {
        match self {
            TokenType::Plus | TokenType::Minus => PrecedenceType::Sum,
            TokenType::Asterisk | TokenType::Slash | TokenType::Modulus => PrecedenceType::Product,
            TokenType::Pow => PrecedenceType::Power,
            _ => PrecedenceType::Lowest,
        }
    }

    /// The precedence level used by the expression parser for this token kind.
    #[verifier::when_used_as_spec(spec_precedence)]
    pub fn precedence(&self) -> (p: PrecedenceType)
        ensures
            p == self.spec_precedence(),
    {
        match self {
            TokenType::Plus | TokenType::Minus => PrecedenceType::Sum,
            TokenType::Asterisk | TokenType::Slash | TokenType::Modulus => PrecedenceType::Product,
            TokenType::Pow => PrecedenceType::Power,
            _ => PrecedenceType::Lowest,
        }
    }
}

/// The mathematical value of a token: its kind, the character sequence of its
/// lexeme, and its position metadata.
pub struct TokenV {
    pub token_type: TokenType,
    pub lexeme: Seq<char>,
    pub line: nat,
    pub position: nat,
}

/// A token produced by the tokenizer. Immutable once created.
#[derive(Debug, Clone, PartialEq)]
pub struct Token {
    pub token_type: TokenType,
    /// The string literal encoding of the current token
    pub lexeme: String,
    /// The line number where the token was found
    pub line: usize,
    /// The position (index) in the line where the token was found
    pub position: usize,
}

impl View for Token {
    type V = TokenV;

    open spec fn view(&self) -> TokenV {
        TokenV {
            token_type: self.token_type,
            lexeme: self.lexeme@,
            line: self.line as nat,
            position: self.position as nat,
        }
    }
}

impl Token {
    /// Build a token from its parts; the result holds exactly the given parts.
    pub fn new(token_type: TokenType, lexeme: String, line: usize, position: usize) -> (t: Self)
        ensures
            t.token_type == token_type,
            t.lexeme == lexeme,
            t.line == line,
            t.position == position,
    {
        Self { token_type, lexeme, line, position }
    }
}

} // verus!
