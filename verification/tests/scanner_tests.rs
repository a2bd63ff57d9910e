use linen::compiler::scanner::Scanner;
use linen::compiler::token::{Token, TokenType};

fn kinds(source: &str) -> Vec<TokenType> {
    let mut scanner = Scanner::new(source);
    scanner.scan_tokens().iter().map(|t| t.token_type).collect()
}

fn text(token: &Token) -> String {
    String::from_utf8(token.lexeme.clone()).unwrap()
}

#[test]
fn scans_punctuation() {
    assert_eq!(
        kinds("(){},.;-+/*"),
        vec![
            TokenType::LeftParen,
            TokenType::RightParen,
            TokenType::LeftBrace,
            TokenType::RightBrace,
            TokenType::Comma,
            TokenType::Dot,
            TokenType::Semicolon,
            TokenType::Minus,
            TokenType::Plus,
            TokenType::Slash,
            TokenType::Star,
            TokenType::EOF,
        ]
    );
}

#[test]
fn scans_one_and_two_character_operators() {
    assert_eq!(
        kinds("! != = == < <= > >="),
        vec![
            TokenType::Bang,
            TokenType::BangEqual,
            TokenType::Equal,
            TokenType::EqualEqual,
            TokenType::Less,
            TokenType::LessEqual,
            TokenType::Greater,
            TokenType::GreaterEqual,
            TokenType::EOF,
        ]
    );
}

#[test]
fn scans_every_keyword() {
    assert_eq!(
        kinds("and class else false for fn if nil or print return super this true var while"),
        vec![
            TokenType::And,
            TokenType::Class,
            TokenType::Else,
            TokenType::False,
            TokenType::For,
            TokenType::Fun,
            TokenType::If,
            TokenType::Nil,
            TokenType::Or,
            TokenType::Print,
            TokenType::Return,
            TokenType::Super,
            TokenType::This,
            TokenType::True,
            TokenType::Var,
            TokenType::While,
            TokenType::EOF,
        ]
    );
}

#[test]
fn keywords_match_exactly() {
    assert_eq!(
        kinds("andy fo _if While nil0"),
        vec![
            TokenType::Identifier,
            TokenType::Identifier,
            TokenType::Identifier,
            TokenType::Identifier,
            TokenType::Identifier,
            TokenType::EOF,
        ]
    );
}

#[test]
fn scans_numbers_with_and_without_fraction() {
    let mut scanner = Scanner::new("12 3.25 7. .5");
    let tokens = scanner.scan_tokens();
    let texts: Vec<String> = tokens.iter().map(text).collect();
    assert_eq!(texts, vec!["12", "3.25", "7", ".", ".", "5", ""]);
    assert_eq!(tokens[0].token_type, TokenType::Number);
    assert_eq!(tokens[1].token_type, TokenType::Number);
    assert_eq!(tokens[2].token_type, TokenType::Number);
    assert_eq!(tokens[3].token_type, TokenType::Dot);
    assert_eq!(tokens[5].token_type, TokenType::Number);
}

#[test]
fn keeps_the_quotes_of_a_string() {
    let mut scanner = Scanner::new("\"hi there\"");
    let token = scanner.scan_token();
    assert_eq!(token.token_type, TokenType::String);
    assert_eq!(text(&token), "\"hi there\"");
    assert_eq!(token.length, 10);
    assert_eq!(token.start, 0);
}

#[test]
fn counts_the_lines_inside_a_string() {
    let mut scanner = Scanner::new("\"a\nb\nc\" x");
    let string = scanner.scan_token();
    assert_eq!(string.token_type, TokenType::String);
    assert_eq!(string.line, 3);
    let name = scanner.scan_token();
    assert_eq!(name.line, 3);
}

#[test]
fn reports_an_unterminated_string() {
    let mut scanner = Scanner::new("\"abc");
    let token = scanner.scan_token();
    assert_eq!(token.token_type, TokenType::Error);
    assert_eq!(text(&token), "Unterminated string.");
    assert_eq!(scanner.scan_token().token_type, TokenType::EOF);
}

#[test]
fn reports_an_unexpected_character() {
    let mut scanner = Scanner::new("@ x");
    let token = scanner.scan_token();
    assert_eq!(token.token_type, TokenType::Error);
    assert_eq!(text(&token), "Unexpected character.");
    assert_eq!(token.start, 0);
    assert_eq!(scanner.scan_token().token_type, TokenType::Identifier);
}

#[test]
fn skips_blanks_and_comments() {
    let mut scanner = Scanner::new(" \t\r\x0c// a comment\n  x // another\n// last");
    let token = scanner.scan_token();
    assert_eq!(token.token_type, TokenType::Identifier);
    assert_eq!(token.line, 2);
    assert_eq!(token.start, 19);
    let end = scanner.scan_token();
    assert_eq!(end.token_type, TokenType::EOF);
    assert_eq!(end.line, 3);
}

#[test]
fn a_single_slash_is_no_comment() {
    assert_eq!(
        kinds("a / b"),
        vec![TokenType::Identifier, TokenType::Slash, TokenType::Identifier, TokenType::EOF]
    );
}

#[test]
fn the_end_of_the_source_repeats() {
    let mut scanner = Scanner::new("");
    assert_eq!(scanner.scan_token().token_type, TokenType::EOF);
    assert_eq!(scanner.scan_token().token_type, TokenType::EOF);
    assert_eq!(scanner.line, 1);
}

#[test]
fn token_new_keeps_its_parts() {
    let token = Token::new(TokenType::Identifier, 2, 7, 40, "ab".as_bytes().to_vec());
    assert_eq!(token.token_type, TokenType::Identifier);
    assert_eq!(token.length, 2);
    assert_eq!(token.line, 7);
    assert_eq!(token.start, 40);
    assert_eq!(token.lexeme, "ab".as_bytes().to_vec());
    assert_eq!(token.clone(), token);
}
