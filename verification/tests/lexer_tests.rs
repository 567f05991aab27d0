use exprparse::lexer::Lexer;
use exprparse::token::{Token, TokenType};

fn tokens_of(source: &str) -> Vec<Token> {
    let mut lexer = Lexer::new(source.to_string());
    let mut out = Vec::new();
    loop {
        let token = lexer.next_token();
        let done = token.token_type == TokenType::Eof;
        out.push(token);
        if done {
            return out;
        }
    }
}

#[test]
fn single_integer_token() {
    let tokens = tokens_of("12345");
    assert_eq!(tokens.len(), 2);
    assert_eq!(tokens[0].token_type, TokenType::Integer);
    assert_eq!(tokens[0].lexeme, "12345");
    assert_eq!(tokens[1].token_type, TokenType::Eof);
    assert_eq!(tokens[1].lexeme, "");
}

#[test]
fn every_punctuation_token() {
    let tokens = tokens_of("+ - * / ^ % ( ) ;");
    let kinds: Vec<TokenType> = tokens.iter().map(|t| t.token_type).collect();
    assert_eq!(
        kinds,
        vec![
            TokenType::Plus,
            TokenType::Minus,
            TokenType::Asterisk,
            TokenType::Slash,
            TokenType::Pow,
            TokenType::Modulus,
            TokenType::LeftParen,
            TokenType::RightParen,
            TokenType::SemiColon,
            TokenType::Eof,
        ]
    );
    assert_eq!(tokens[0].lexeme, "+");
    assert_eq!(tokens[4].lexeme, "^");
    assert_eq!(tokens[5].lexeme, "%");
}

#[test]
fn float_token_has_dot() {
    let tokens = tokens_of("3.5");
    assert_eq!(tokens[0].token_type, TokenType::Float);
    assert_eq!(tokens[0].lexeme, "3.5");
}

#[test]
fn malformed_numeric_lexeme_is_scanned_whole() {
    // Numeric validation is deferred: the tokenizer accepts any run of digits
    // and dots and classifies it by the presence of a dot.
    let tokens = tokens_of("1.2.3");
    assert_eq!(tokens[0].token_type, TokenType::Float);
    assert_eq!(tokens[0].lexeme, "1.2.3");
    assert_eq!(tokens[1].token_type, TokenType::Eof);
}

#[test]
fn identifier_token() {
    let tokens = tokens_of("abc_d e");
    assert_eq!(tokens[0].token_type, TokenType::Identifier);
    assert_eq!(tokens[0].lexeme, "abc_d");
    assert_eq!(tokens[1].token_type, TokenType::Identifier);
    assert_eq!(tokens[1].lexeme, "e");
}

#[test]
fn identifier_may_hold_letters_beyond_ascii() {
    let tokens = tokens_of("αβ + 1");
    assert_eq!(tokens[0].token_type, TokenType::Identifier);
    assert_eq!(tokens[0].lexeme, "αβ");
    // positions count characters, not bytes
    assert_eq!(tokens[0].position, 2);
    assert_eq!(tokens[1].token_type, TokenType::Plus);
    assert_eq!(tokens[1].position, 4);
    assert_eq!(tokens[2].token_type, TokenType::Integer);
    assert_eq!(tokens[2].lexeme, "1");
    assert_eq!(tokens[2].position, 6);
}

#[test]
fn illegal_character_becomes_token() {
    let tokens = tokens_of("@");
    assert_eq!(tokens[0].token_type, TokenType::Illegal);
    assert_eq!(tokens[0].lexeme, "@");
    assert_eq!(tokens[1].token_type, TokenType::Eof);
}

#[test]
fn positions_point_past_each_token() {
    let tokens = tokens_of("12 + 5");
    assert_eq!(tokens[0].position, 2);
    assert_eq!(tokens[1].position, 4);
    assert_eq!(tokens[2].position, 6);
    assert_eq!(tokens[3].position, 6);
    assert!(tokens.iter().all(|t| t.line == 1));
}

#[test]
fn end_of_input_is_idempotent() {
    let mut lexer = Lexer::new("7".to_string());
    let first = lexer.next_token();
    assert_eq!(first.token_type, TokenType::Integer);
    for _ in 0..3 {
        let t = lexer.next_token();
        assert_eq!(t.token_type, TokenType::Eof);
        assert_eq!(t.lexeme, "");
        assert_eq!(t.position, 1);
    }
}

#[test]
fn empty_source_yields_end_of_input() {
    let tokens = tokens_of("");
    assert_eq!(tokens.len(), 1);
    assert_eq!(tokens[0].token_type, TokenType::Eof);
    assert_eq!(tokens[0].position, 0);
}

#[test]
fn whitespace_only_source() {
    let tokens = tokens_of(" \t\n  ");
    assert_eq!(tokens.len(), 1);
    assert_eq!(tokens[0].token_type, TokenType::Eof);
    assert_eq!(tokens[0].position, 5);
}

#[test]
fn token_new_keeps_parts() {
    let t = Token::new(TokenType::Plus, "+".to_string(), 1, 4);
    assert_eq!(t.token_type, TokenType::Plus);
    assert_eq!(t.lexeme, "+");
    assert_eq!(t.line, 1);
    assert_eq!(t.position, 4);
}
