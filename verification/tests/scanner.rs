use lox_ast::scanner::Scanner;
use lox_ast::token::Token;
use lox_ast::token_type::TokenType;
use lox_ast::value::object::Object;

fn scan(source: &str) -> Vec<Token> {
    Scanner::new(source.to_string()).scan_tokens().expect("scan")
}

fn kinds(source: &str) -> Vec<TokenType> {
    scan(source).iter().map(|token| token.tk_type).collect()
}

fn lexemes(source: &str) -> Vec<String> {
    scan(source).iter().map(|token| token.lexeme.clone()).collect()
}

#[test]
fn empty_source_is_one_token() {
    let tokens = scan("");
    assert_eq!(tokens.len(), 1);
    assert_eq!(tokens[0].tk_type, TokenType::Eof);
    assert_eq!(tokens[0].lexeme, "");
    assert_eq!(tokens[0].line, 1);
}

#[test]
fn single_character_tokens() {
    assert_eq!(
        kinds("(){},.-+;*/"),
        vec![
            TokenType::LeftParen,
            TokenType::RightParen,
            TokenType::LeftBrace,
            TokenType::RightBrace,
            TokenType::Comma,
            TokenType::Dot,
            TokenType::Minus,
            TokenType::Plus,
            TokenType::SemiColon,
            TokenType::Star,
            TokenType::Slash,
            TokenType::Eof,
        ]
    );
}

#[test]
fn operators_merge_with_equal() {
    assert_eq!(
        kinds("! != = == < <= > >="),
        vec![
            TokenType::Bang,
            TokenType::BangEqual,
            TokenType::Equal,
            TokenType::EqualEqual,
            TokenType::Less,
            TokenType::LessEqual,
            TokenType::Greater,
            TokenType::GreaterEqual,
            TokenType::Eof,
        ]
    );
    assert_eq!(lexemes("a<=b"), vec!["a", "<=", "b", ""]);
    assert_eq!(kinds("==="), vec![TokenType::EqualEqual, TokenType::Equal, TokenType::Eof]);
    assert_eq!(kinds("!"), vec![TokenType::Bang, TokenType::Eof]);
    assert_eq!(kinds("<"), vec![TokenType::Less, TokenType::Eof]);
}

#[test]
fn white_space_and_comments_make_no_token() {
    assert_eq!(kinds(" \t\r\n"), vec![TokenType::Eof]);
    assert_eq!(kinds("// nothing here"), vec![TokenType::Eof]);
    assert_eq!(kinds("1 // one\n2"), vec![TokenType::Number, TokenType::Number, TokenType::Eof]);
    assert_eq!(kinds("//\n/"), vec![TokenType::Slash, TokenType::Eof]);
}

#[test]
fn lines_are_counted() {
    let tokens = scan("a\nb // c\n\n  d \"x\ny\" e");
    let lines: Vec<usize> = tokens.iter().map(|token| token.line).collect();
    // the string token is on the line where it ends
    assert_eq!(lines, vec![1, 2, 4, 5, 5, 5]);
    assert_eq!(tokens[3].tk_type, TokenType::String);
    assert_eq!(tokens[3].lexeme, "\"x\ny\"");
}

#[test]
fn strings_are_taken_verbatim() {
    let tokens = scan("\"hello\\n world\"");
    assert_eq!(tokens.len(), 2);
    assert_eq!(tokens[0].tk_type, TokenType::String);
    assert_eq!(tokens[0].lexeme, "\"hello\\n world\"");
    assert_eq!(tokens[0].literal, Some(Object::Str("hello\\n world".to_string())));
    let tokens = scan("\"\"");
    assert_eq!(tokens[0].literal, Some(Object::Str(String::new())));
    let tokens = scan("\"é ✓\"x");
    assert_eq!(tokens[0].literal, Some(Object::Str("é ✓".to_string())));
    assert_eq!(tokens[1].lexeme, "x");
}

#[test]
fn unterminated_string_is_an_error() {
    let error = Scanner::new("1 \"open\nline".to_string()).scan_tokens().unwrap_err();
    assert_eq!(error.line, 2);
    assert_eq!(error.message, "Unterminated string");
    let error = Scanner::new("\"".to_string()).scan_tokens().unwrap_err();
    assert_eq!(error.line, 1);
}

#[test]
fn unknown_character_is_an_error() {
    let error = Scanner::new("var a;\n  @".to_string()).scan_tokens().unwrap_err();
    assert_eq!(error.line, 2);
    assert_eq!(error.message, "unmatched token type");
    assert!(Scanner::new("#".to_string()).scan_tokens().is_err());
    assert!(Scanner::new("a & b".to_string()).scan_tokens().is_err());
    assert!(Scanner::new("é".to_string()).scan_tokens().is_err());
}

#[test]
fn numbers() {
    assert_eq!(lexemes("123"), vec!["123", ""]);
    assert_eq!(lexemes("12.5"), vec!["12.5", ""]);
    assert_eq!(lexemes("0.25 7"), vec!["0.25", "7", ""]);
    let tokens = scan("12.5");
    assert_eq!(tokens[0].tk_type, TokenType::Number);
    // the value of a number is left to the caller
    assert_eq!(tokens[0].literal, None);
}

#[test]
fn point_belongs_to_a_number_only_before_a_digit() {
    assert_eq!(lexemes("1."), vec!["1", ".", ""]);
    assert_eq!(kinds("1."), vec![TokenType::Number, TokenType::Dot, TokenType::Eof]);
    assert_eq!(lexemes("1.a"), vec!["1", ".", "a", ""]);
    assert_eq!(lexemes(".5"), vec![".", "5", ""]);
    assert_eq!(lexemes("1.2.3"), vec!["1.2", ".", "3", ""]);
    assert_eq!(lexemes("1..2"), vec!["1", ".", ".", "2", ""]);
}

#[test]
fn identifiers_and_keywords() {
    assert_eq!(
        kinds("and class else false for func if nil or print return super this true var while break"),
        vec![
            TokenType::And,
            TokenType::Class,
            TokenType::Else,
            TokenType::False,
            TokenType::For,
            TokenType::Func,
            TokenType::If,
            TokenType::Nil,
            TokenType::Or,
            TokenType::Print,
            TokenType::Return,
            TokenType::Super,
            TokenType::This,
            TokenType::True,
            TokenType::Var,
            TokenType::While,
            TokenType::Break,
            TokenType::Eof,
        ]
    );
    assert_eq!(
        kinds("_x x1 andy fun For continue"),
        vec![
            TokenType::Identifier,
            TokenType::Identifier,
            TokenType::Identifier,
            TokenType::Identifier,
            TokenType::Identifier,
            TokenType::Identifier,
            TokenType::Eof,
        ]
    );
    assert_eq!(lexemes("a_b2+c"), vec!["a_b2", "+", "c", ""]);
    assert_eq!(lexemes("1abc"), vec!["1", "abc", ""]);
}

#[test]
fn statement_is_scanned_whole() {
    let tokens = scan("var x = (1 + 2) * y; // done");
    let found: Vec<(TokenType, &str)> =
        tokens.iter().map(|token| (token.tk_type, token.lexeme.as_str())).collect();
    assert_eq!(
        found,
        vec![
            (TokenType::Var, "var"),
            (TokenType::Identifier, "x"),
            (TokenType::Equal, "="),
            (TokenType::LeftParen, "("),
            (TokenType::Number, "1"),
            (TokenType::Plus, "+"),
            (TokenType::Number, "2"),
            (TokenType::RightParen, ")"),
            (TokenType::Star, "*"),
            (TokenType::Identifier, "y"),
            (TokenType::SemiColon, ";"),
            (TokenType::Eof, ""),
        ]
    );
}

#[test]
fn scanner_hands_its_tokens_out_once() {
    let mut scanner = Scanner::new("a b".to_string());
    assert!(!scanner.is_at_end());
    assert_eq!(scanner.scan_tokens().unwrap().len(), 3);
    assert!(scanner.is_at_end());
    // nothing is left but the end of input
    let again = scanner.scan_tokens().unwrap();
    assert_eq!(again.len(), 1);
    assert_eq!(again[0].tk_type, TokenType::Eof);
}
