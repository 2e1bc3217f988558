use rlox::error::LoxError;
use rlox::lexer::Lexer;
use rlox::token::Token;
use rlox::token::TokenLiteral;
use rlox::token::TokenType;

fn scan(source: &str) -> (Vec<Token>, bool, Vec<LoxError>) {
    let mut lexer = Lexer::new(source.to_string());
    let (tokens, had_error) = lexer.scan_tokens();
    let errors = lexer.take_errors();
    (tokens, had_error, errors)
}

fn literal_string(token: &Token) -> String {
    match &token.literal {
        None => String::new(),
        Some(TokenLiteral::String(s)) => s.clone(),
        Some(TokenLiteral::Number(s)) => s.clone(),
    }
}

#[test]
fn empty_source_yields_only_end() {
    let (tokens, had_error, errors) = scan("");
    assert_eq!(tokens.len(), 1);
    assert_eq!(tokens[0].token_type, TokenType::EOF);
    assert_eq!(tokens[0].lexeme, "");
    assert_eq!(tokens[0].line, 1);
    assert!(!had_error);
    assert!(errors.is_empty());
}

#[test]
fn valid_source_has_no_error_and_ends_with_end() {
    let (tokens, had_error, errors) = scan("var answer = (1 + 2) * 3; // done\n");
    assert!(!had_error);
    assert!(errors.is_empty());
    let last = tokens.last().unwrap();
    assert_eq!(last.token_type, TokenType::EOF);
    assert_eq!(last.lexeme, "");
    for token in &tokens[..tokens.len() - 1] {
        assert_ne!(token.token_type, TokenType::EOF);
    }
}

#[test]
fn every_character_is_accounted_for() {
    let source = "ab + 12 // note\n\"s\" @";
    let (tokens, _, _) = scan(source);
    let lexeme_chars: usize = tokens.iter().map(|t| t.lexeme.chars().count()).sum();
    // Characters not inside a lexeme were skipped as whitespace, comment
    // text, or erroneous characters: 4 spaces, the 7 comment characters,
    // the newline, and the "@" make 13 here.
    assert_eq!(lexeme_chars + 13, source.chars().count());
}

#[test]
fn maximal_munch_prefers_two_character_operators() {
    let (tokens, had_error, _) = scan("!=");
    assert!(!had_error);
    assert_eq!(tokens.len(), 2);
    assert_eq!(tokens[0].token_type, TokenType::BangEqual);
    assert_eq!(tokens[0].lexeme, "!=");

    let (tokens, had_error, _) = scan("==<=>=");
    assert!(!had_error);
    let types: Vec<TokenType> = tokens.iter().map(|t| t.token_type).collect();
    assert_eq!(
        types,
        vec![
            TokenType::EqualEqual,
            TokenType::LessEqual,
            TokenType::GreaterEqual,
            TokenType::EOF
        ]
    );
}

#[test]
fn lone_less_at_end_of_input_is_less_not_an_error() {
    let (tokens, had_error, errors) = scan("<");
    assert!(!had_error);
    assert!(errors.is_empty());
    assert_eq!(tokens.len(), 2);
    assert_eq!(tokens[0].token_type, TokenType::Less);
    assert_eq!(tokens[0].lexeme, "<");
}

#[test]
fn single_character_tokens_scan_one_each() {
    let (tokens, had_error, _) = scan("(){},.-+;/*");
    assert!(!had_error);
    let types: Vec<TokenType> = tokens.iter().map(|t| t.token_type).collect();
    assert_eq!(
        types,
        vec![
            TokenType::LeftParen,
            TokenType::RightParen,
            TokenType::LeftBrace,
            TokenType::RightBrace,
            TokenType::Comma,
            TokenType::Dot,
            TokenType::Minus,
            TokenType::Plus,
            TokenType::Semicolon,
            TokenType::Slash,
            TokenType::Star,
            TokenType::EOF
        ]
    );
}

#[test]
fn string_literal_strips_quotes_only() {
    let (tokens, had_error, _) = scan("\"abc\"");
    assert!(!had_error);
    assert_eq!(tokens.len(), 2);
    assert_eq!(tokens[0].token_type, TokenType::String);
    assert_eq!(tokens[0].lexeme, "\"abc\"");
    assert_eq!(literal_string(&tokens[0]), "abc");
}

#[test]
fn string_literal_keeps_backslash_verbatim() {
    // No escape processing: the backslash stays and does not escape the
    // closing quote.
    let (tokens, had_error, _) = scan("\"a\\\"");
    assert!(!had_error);
    assert_eq!(tokens[0].token_type, TokenType::String);
    assert_eq!(literal_string(&tokens[0]), "a\\");
}

#[test]
fn string_spanning_lines_counts_newlines() {
    let (tokens, had_error, _) = scan("\"a\nb\" c");
    assert!(!had_error);
    assert_eq!(tokens[0].token_type, TokenType::String);
    assert_eq!(literal_string(&tokens[0]), "a\nb");
    assert_eq!(tokens[0].line, 2);
    assert_eq!(tokens[1].token_type, TokenType::Identifier);
    assert_eq!(tokens[1].line, 2);
}

#[test]
fn unterminated_string_reports_error_and_emits_no_token() {
    let (tokens, had_error, errors) = scan("\"abc");
    assert!(had_error);
    assert_eq!(errors.len(), 1);
    assert_eq!(errors[0].render(), "[line 1] Error: Unterminated string.");
    assert_eq!(tokens.len(), 1);
    assert_eq!(tokens[0].token_type, TokenType::EOF);
}

#[test]
fn number_with_fraction_scans_as_one_token() {
    let (tokens, had_error, _) = scan("123.456");
    assert!(!had_error);
    assert_eq!(tokens.len(), 2);
    assert_eq!(tokens[0].token_type, TokenType::Number);
    assert_eq!(tokens[0].lexeme, "123.456");
    assert_eq!(literal_string(&tokens[0]), "123.456");
}

#[test]
fn trailing_dot_is_not_part_of_the_number() {
    let (tokens, had_error, _) = scan("123.");
    assert!(!had_error);
    let types: Vec<TokenType> = tokens.iter().map(|t| t.token_type).collect();
    assert_eq!(types, vec![TokenType::Number, TokenType::Dot, TokenType::EOF]);
    assert_eq!(tokens[0].lexeme, "123");
    assert_eq!(literal_string(&tokens[0]), "123");
    assert_eq!(tokens[1].lexeme, ".");
}

#[test]
fn line_tracking_follows_newlines() {
    let (tokens, had_error, _) = scan("a\nb\nc");
    assert!(!had_error);
    assert_eq!(tokens.len(), 4);
    for (i, line) in [1usize, 2, 3].iter().enumerate() {
        assert_eq!(tokens[i].token_type, TokenType::Identifier);
        assert_eq!(tokens[i].line, *line);
    }
    assert_eq!(tokens[3].token_type, TokenType::EOF);
    assert_eq!(tokens[3].line, 3);
}

#[test]
fn keyword_recognition_is_exact_and_case_sensitive() {
    let (tokens, _, _) = scan("and");
    assert_eq!(tokens[0].token_type, TokenType::And);

    let (tokens, _, _) = scan("And");
    assert_eq!(tokens[0].token_type, TokenType::Identifier);

    let (tokens, _, _) = scan("and1");
    assert_eq!(tokens[0].token_type, TokenType::Identifier);
    assert_eq!(tokens[0].lexeme, "and1");
}

#[test]
fn all_keywords_are_recognized() {
    let source = "and class else false fun for if nil or print return super this true var while";
    let (tokens, had_error, _) = scan(source);
    assert!(!had_error);
    let types: Vec<TokenType> = tokens.iter().map(|t| t.token_type).collect();
    assert_eq!(
        types,
        vec![
            TokenType::And,
            TokenType::Class,
            TokenType::Else,
            TokenType::False,
            TokenType::Fun,
            TokenType::For,
            TokenType::If,
            TokenType::Nil,
            TokenType::Or,
            TokenType::Print,
            TokenType::Return,
            TokenType::Super,
            TokenType::This,
            TokenType::True,
            TokenType::Var,
            TokenType::While,
            TokenType::EOF
        ]
    );
}

#[test]
fn comment_is_skipped_to_end_of_line() {
    let (tokens, had_error, _) = scan("// comment\n1");
    assert!(!had_error);
    assert_eq!(tokens.len(), 2);
    assert_eq!(tokens[0].token_type, TokenType::Number);
    assert_eq!(tokens[0].lexeme, "1");
    assert_eq!(tokens[0].line, 2);
}

#[test]
fn unexpected_character_reports_error_and_scanning_continues() {
    let (tokens, had_error, errors) = scan("@1");
    assert!(had_error);
    assert_eq!(errors.len(), 1);
    assert_eq!(errors[0].render(), "[line 1] Error: Unexpected character.");
    assert_eq!(tokens.len(), 2);
    assert_eq!(tokens[0].token_type, TokenType::Number);
    assert_eq!(tokens[0].lexeme, "1");
}

#[test]
fn multiple_errors_are_all_collected_in_one_pass() {
    let (tokens, had_error, errors) = scan("@ # 1");
    assert!(had_error);
    assert_eq!(errors.len(), 2);
    assert_eq!(errors[0].render(), "[line 1] Error: Unexpected character.");
    assert_eq!(errors[1].render(), "[line 1] Error: Unexpected character.");
    assert_eq!(tokens[0].token_type, TokenType::Number);
}

#[test]
fn underscore_starts_an_identifier() {
    let (tokens, _, _) = scan("_tmp9");
    assert_eq!(tokens[0].token_type, TokenType::Identifier);
    assert_eq!(tokens[0].lexeme, "_tmp9");
}

#[test]
fn unterminated_string_error_line_counts_its_newlines() {
    let (tokens, had_error, errors) = scan("\"a\nb");
    assert!(had_error);
    assert_eq!(errors.len(), 1);
    assert_eq!(errors[0].render(), "[line 2] Error: Unterminated string.");
    assert_eq!(tokens.len(), 1);
    assert_eq!(tokens[0].token_type, TokenType::EOF);
    assert_eq!(tokens[0].line, 2);
}

#[test]
fn second_dot_is_a_separate_token() {
    let (tokens, had_error, _) = scan("123.456.789");
    assert!(!had_error);
    let types: Vec<TokenType> = tokens.iter().map(|t| t.token_type).collect();
    assert_eq!(
        types,
        vec![TokenType::Number, TokenType::Dot, TokenType::Number, TokenType::EOF]
    );
    assert_eq!(tokens[0].lexeme, "123.456");
    assert_eq!(tokens[2].lexeme, "789");
}

#[test]
fn whitespace_is_skipped_without_tokens() {
    let (tokens, had_error, _) = scan(" \r\t");
    assert!(!had_error);
    assert_eq!(tokens.len(), 1);
    assert_eq!(tokens[0].token_type, TokenType::EOF);
}
