use rlox::error::usize_to_string;
use rlox::error::LoxError;
use rlox::lexer::Lexer;
use rlox::token::Token;
use rlox::token::TokenLiteral;
use rlox::token::TokenType;

#[test]
fn decimal_strings_have_no_leading_zeros() {
    assert_eq!(usize_to_string(0), "0");
    assert_eq!(usize_to_string(7), "7");
    assert_eq!(usize_to_string(10), "10");
    assert_eq!(usize_to_string(120), "120");
    assert_eq!(usize_to_string(98765), "98765");
}

#[test]
fn error_renders_with_place_concatenated_after_the_word_error() {
    let plain = LoxError::new(3, None, "Unexpected character.");
    assert_eq!(plain.render(), "[line 3] Error: Unexpected character.");

    // A caller wanting ` at 'x'` supplies the leading space itself.
    let placed = LoxError::new(12, Some(" at 'x'"), "Something.");
    assert_eq!(placed.render(), "[line 12] Error at 'x': Something.");

    let bare = LoxError::new(1, Some("HERE"), "m");
    assert_eq!(bare.render(), "[line 1] ErrorHERE: m");
}

#[test]
fn token_renders_category_lexeme_and_literal() {
    let token = Token {
        token_type: TokenType::String,
        lexeme: "\"hi\"".to_string(),
        literal: Some(TokenLiteral::String("hi".to_string())),
        line: 1,
    };
    assert_eq!(token.render(), "String \"hi\" hi");

    let token = Token {
        token_type: TokenType::Var,
        lexeme: "var".to_string(),
        literal: None,
        line: 1,
    };
    assert_eq!(token.render(), "Var var ");

    let token = Token {
        token_type: TokenType::Number,
        lexeme: "123.456".to_string(),
        literal: Some(TokenLiteral::Number("123.456".to_string())),
        line: 1,
    };
    assert_eq!(token.render(), "Number 123.456 123.456");
}

#[test]
fn category_names_match_their_variants() {
    assert_eq!(TokenType::LeftParen.name(), "LeftParen");
    assert_eq!(TokenType::BangEqual.name(), "BangEqual");
    assert_eq!(TokenType::Identifier.name(), "Identifier");
    assert_eq!(TokenType::EOF.name(), "EOF");
}

#[test]
fn scanned_end_token_renders_with_empty_fields() {
    let mut lexer = Lexer::new(String::new());
    let (tokens, _) = lexer.scan_tokens();
    assert_eq!(tokens[0].render(), "EOF  ");
}
