use yafika::lexer::{LexError, Lexer};
use yafika::scanner::{Lexeme, Scanner};
use yafika::token::{Token, TokenType};

fn tokens_of(source: &str) -> Result<Vec<Token>, LexError> {
    let mut lexer = Lexer::new(source.to_string());
    let mut out = Vec::new();
    loop {
        let t = lexer.next_token()?;
        if t.token_type == TokenType::EOF {
            return Ok(out);
        }
        out.push(t);
    }
}

#[test]
fn lexer_test() {
    let array_of_tokens = tokens_of(
        "let x = 123
        let y = \"hello world\"
        let number = 420 + 69 - 1
        nil True False ! != ( ) == >= <= *",
    )
    .unwrap();

    assert_eq!(array_of_tokens.len(), 27);
    assert_eq!(array_of_tokens[0], Token::new(TokenType::Let, "let".to_string()));
    assert_eq!(array_of_tokens[1], Token::new(TokenType::Identifier, "x".to_string()));
    assert_eq!(array_of_tokens[2], Token::new(TokenType::Assign, "=".to_string()));
    assert_eq!(array_of_tokens[3], Token::new(TokenType::Number, "123".to_string()));
    assert_eq!(array_of_tokens[4], Token::new(TokenType::Let, "let".to_string()));
    assert_eq!(array_of_tokens[5], Token::new(TokenType::Identifier, "y".to_string()));
    assert_eq!(array_of_tokens[6], Token::new(TokenType::Assign, "=".to_string()));
    assert_eq!(array_of_tokens[7], Token::new(TokenType::String, "hello world".to_string()));
    assert_eq!(array_of_tokens[12], Token::new(TokenType::Addition, "+".to_string()));
    assert_eq!(array_of_tokens[13], Token::new(TokenType::Number, "69".to_string()));
    assert_eq!(array_of_tokens[14], Token::new(TokenType::Minus, "-".to_string()));
    assert_eq!(array_of_tokens[15], Token::new(TokenType::Number, "1".to_string()));
    assert_eq!(array_of_tokens[16], Token::new(TokenType::Nil, "nil".to_string()));
    assert_eq!(array_of_tokens[17], Token::new(TokenType::Bool, "True".to_string()));
    assert_eq!(array_of_tokens[18], Token::new(TokenType::Bool, "False".to_string()));
    assert_eq!(array_of_tokens[19], Token::new(TokenType::Bang, "!".to_string()));
    assert_eq!(array_of_tokens[20], Token::new(TokenType::BangEqual, "!=".to_string()));
    assert_eq!(array_of_tokens[21], Token::new(TokenType::LeftParen, "(".to_string()));
    assert_eq!(array_of_tokens[22], Token::new(TokenType::RightParen, ")".to_string()));
    assert_eq!(array_of_tokens[23], Token::new(TokenType::EqualEqual, "==".to_string()));
    assert_eq!(array_of_tokens[24], Token::new(TokenType::LessEqual, ">=".to_string()));
    assert_eq!(array_of_tokens[25], Token::new(TokenType::GreaterEqual, "<=".to_string()));
    assert_eq!(array_of_tokens[26], Token::new(TokenType::Star, "*".to_string()));
}

#[test]
fn test_lexer() {
    let tokens = tokens_of("let hello = \"hello\"").unwrap();
    assert!(tokens.contains(&Token::new(TokenType::Let, "let".to_string())));
}

#[test]
fn lexes_delimiters_and_keywords() {
    let kinds: Vec<TokenType> = tokens_of("fn(a, b) { return a; } if else true false")
        .unwrap()
        .into_iter()
        .map(|t| t.token_type)
        .collect();
    assert_eq!(
        kinds,
        vec![
            TokenType::Fn,
            TokenType::LeftParen,
            TokenType::Identifier,
            TokenType::Comma,
            TokenType::Identifier,
            TokenType::RightParen,
            TokenType::LeftBrace,
            TokenType::Return,
            TokenType::Identifier,
            TokenType::SemiColon,
            TokenType::RightBrace,
            TokenType::If,
            TokenType::Else,
            TokenType::Bool,
            TokenType::Bool,
        ]
    );
}

#[test]
fn number_separators_are_dropped() {
    let tokens = tokens_of("1_000_000 2.50").unwrap();
    assert_eq!(tokens[0], Token::new(TokenType::Number, "1000000".to_string()));
    assert_eq!(tokens[1], Token::new(TokenType::Number, "2.50".to_string()));
}

#[test]
fn single_quoted_strings_are_verbatim() {
    let tokens = tokens_of("'a \"b\" c'").unwrap();
    assert_eq!(tokens, vec![Token::new(TokenType::String, "a \"b\" c".to_string())]);
}

#[test]
fn unterminated_string_is_an_error() {
    assert_eq!(tokens_of("\"abc"), Err(LexError::UnterminatedString));
}

#[test]
fn unknown_operator_run_is_an_error() {
    assert_eq!(tokens_of("a === b"), Err(LexError::UnknownOperator("===".to_string())));
}

#[test]
fn unexpected_character_is_an_error() {
    assert_eq!(tokens_of("9:"), Err(LexError::UnexpectedCharacter(':')));
}

#[test]
fn double_bang_is_two_tokens() {
    let kinds: Vec<TokenType> =
        tokens_of("!!x").unwrap().into_iter().map(|t| t.token_type).collect();
    assert_eq!(kinds, vec![TokenType::Bang, TokenType::Bang, TokenType::Identifier]);
}

#[test]
fn end_of_input_repeats() {
    let mut lexer = Lexer::new("  ".to_string());
    assert_eq!(lexer.next_token().unwrap().token_type, TokenType::EOF);
    assert_eq!(lexer.next_token().unwrap().token_type, TokenType::EOF);
}

#[test]
fn peek_does_not_consume() {
    let mut lexer = Lexer::new("let x".to_string());
    let peeked = lexer.peek().unwrap();
    let next = lexer.next_token().unwrap();
    assert_eq!(peeked, next);
    assert_eq!(lexer.next_token().unwrap(), Token::new(TokenType::Identifier, "x".to_string()));
}

#[test]
fn read_and_skip_whitespace_move_forward() {
    let mut lexer = Lexer::new("a   b".to_string());
    lexer.read();
    lexer.skip_whitespace();
    assert_eq!(lexer.next_token().unwrap(), Token::new(TokenType::Identifier, "b".to_string()));
}

#[test]
fn scanner_collects_tokens_through_end_of_input() {
    let mut scanner = Scanner::new("let a = 1".to_string());
    assert_eq!(scanner.scan_tokens(), Ok(()));
    let kinds: Vec<TokenType> = scanner.tokens().iter().map(|t| t.token_type).collect();
    assert_eq!(
        kinds,
        vec![TokenType::Let, TokenType::Identifier, TokenType::Assign, TokenType::Number, TokenType::EOF]
    );
}

#[test]
fn scanner_reports_failure() {
    let mut scanner = Scanner::new("a \"b".to_string());
    assert_eq!(scanner.scan_tokens(), Err(LexError::UnterminatedString));
    assert_eq!(scanner.tokens().len(), 1);
}

#[test]
fn scanner_notes_lines() {
    let mut scanner = Scanner::new("let a = 1\n\n  a +\n'x\ny' b".to_string());
    assert_eq!(scanner.scan_tokens(), Ok(()));
    let lines: Vec<usize> = scanner.tokens().iter().map(|t| t.line).collect();
    assert_eq!(lines, vec![1, 1, 1, 1, 3, 3, 4, 5, 5]);
    assert_eq!(scanner.tokens()[6], Lexeme::new(TokenType::String, "x\ny".to_string(), 4));
}

#[test]
fn unicode_letters_form_identifiers() {
    let tokens = tokens_of("héllo").unwrap();
    assert_eq!(tokens, vec![Token::new(TokenType::Identifier, "héllo".to_string())]);
}
