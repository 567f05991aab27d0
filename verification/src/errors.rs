//! Parse diagnostics. The parser never stops at a failure: it records one of
//! these values, recovers locally, and keeps going, so a single run surfaces
//! every recoverable error it finds.

use vstd::prelude::*;

use crate::token::TokenType;

verus! {

/// A recoverable failure found while parsing.
#[derive(Debug, Clone, Copy, PartialEq, Eq, Structural)]
pub enum ParseError {
    /// A token of this kind cannot begin a statement.
    UnexpectedToken(TokenType),
    /// No rule can begin an expression at a token of this kind.
    NoPrefixParse(TokenType),
    /// The next token was expected to be of the first kind but was of the
    /// second.
    ExpectedToken { expected: TokenType, got: TokenType },
    /// An integer literal too wide for a 64-bit signed integer.
    IntegerLiteralOutOfRange,
    /// A float literal that is not a run of digits holding exactly one dot.
    MalformedFloatLiteral,
}

/// The display name of a token kind.
pub open spec fn spec_kind_name(k: TokenType) -> Seq<char> {
    match k {
        TokenType::Identifier => "Identifier"@,
        TokenType::Integer => "Integer"@,
        TokenType::Float => "Float"@,
        TokenType::Plus => "Plus"@,
        TokenType::Minus => "Minus"@,
        TokenType::Asterisk => "Asterisk"@,
        TokenType::Slash => "Slash"@,
        TokenType::Pow => "Pow"@,
        TokenType::Modulus => "Modulus"@,
        TokenType::SemiColon => "SemiColon"@,
        TokenType::LeftParen => "LeftParen"@,
        TokenType::RightParen => "RightParen"@,
        TokenType::Eof => "Eof"@,
        TokenType::Illegal => "Illegal"@,
    }
}

/// The display name of a token kind.
pub fn kind_name(k: TokenType) -> (r: &'static str)
    ensures
        r@ == spec_kind_name(k),
{
    match k {
        TokenType::Identifier => "Identifier",
        TokenType::Integer => "Integer",
        TokenType::Float => "Float",
        TokenType::Plus => "Plus",
        TokenType::Minus => "Minus",
        TokenType::Asterisk => "Asterisk",
        TokenType::Slash => "Slash",
        TokenType::Pow => "Pow",
        TokenType::Modulus => "Modulus",
        TokenType::SemiColon => "SemiColon",
        TokenType::LeftParen => "LeftParen",
        TokenType::RightParen => "RightParen",
        TokenType::Eof => "Eof",
        TokenType::Illegal => "Illegal",
    }
}

impl ParseError {
    /// The human-readable text of this diagnostic.
    pub open spec fn spec_message(&self) -> Seq<char> {
        match self {
            ParseError::UnexpectedToken(k) => "Unexpected token: "@ + spec_kind_name(*k),
            ParseError::NoPrefixParse(k) => "No prefix parse function for "@ + spec_kind_name(*k)
                + " found"@,
            ParseError::ExpectedToken { expected, got } => "Expected next token to be "@
                + spec_kind_name(*expected) + ", got "@ + spec_kind_name(*got) + " instead"@,
            ParseError::IntegerLiteralOutOfRange => "Integer literal does not fit in 64 bits"@,
            ParseError::MalformedFloatLiteral => "Malformed float literal"@,
        }
    }

    /// The human-readable text of this diagnostic.
    pub fn message(&self) -> (m: String)
        ensures
            m@ == self.spec_message(),
    {
        match self {
            ParseError::UnexpectedToken(k) => {
                let mut m = String::from_str("Unexpected token: ");
                m.append(kind_name(*k));
                m
            },
            ParseError::NoPrefixParse(k) => {
                let mut m = String::from_str("No prefix parse function for ");
                m.append(kind_name(*k));
                m.append(" found");
                m
            },
            ParseError::ExpectedToken { expected, got } => {
                let mut m = String::from_str("Expected next token to be ");
                m.append(kind_name(*expected));
                m.append(", got ");
                m.append(kind_name(*got));
                m.append(" instead");
                m
            },
            ParseError::IntegerLiteralOutOfRange => String::from_str(
                "Integer literal does not fit in 64 bits",
            ),
            ParseError::MalformedFloatLiteral => String::from_str("Malformed float literal"),
        }
    }
}

} // verus!
