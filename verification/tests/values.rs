use lox_ast::error::LoxError;
use lox_ast::error::LoxResult;
use lox_ast::interpreter::expr_interpreter::number_binary_evaluate;
use lox_ast::interpreter::expr_interpreter::unary_evaluate;
use lox_ast::native::NativeClock;
use lox_ast::text::decimal_text;
use lox_ast::token::Token;
use lox_ast::token_type::TokenType;
use lox_ast::value::object::negate_number;
use lox_ast::value::object::numbers_equal;
use lox_ast::value::object::numbers_less;
use lox_ast::value::object::Object;

fn samples() -> Vec<f64> {
    vec![
        0.0,
        -0.0,
        1.0,
        -1.0,
        0.5,
        -0.5,
        2.0,
        1e300,
        -1e300,
        5e-324,
        -5e-324,
        f64::MIN_POSITIVE,
        f64::MAX,
        f64::MIN,
        f64::INFINITY,
        f64::NEG_INFINITY,
        f64::NAN,
        -f64::NAN,
        f64::from_bits(0x7ff0_0000_0000_0001),
        f64::from_bits(0xfff8_0000_0000_1234),
        3.141592653589793,
        1.0000000000000002,
    ]
}

#[test]
fn equality_agrees_with_the_doubles() {
    for a in samples() {
        for b in samples() {
            assert_eq!(numbers_equal(a.to_bits(), b.to_bits()), a == b, "{} == {}", a, b);
        }
    }
}

#[test]
fn order_agrees_with_the_doubles() {
    for a in samples() {
        for b in samples() {
            assert_eq!(numbers_less(a.to_bits(), b.to_bits()), a < b, "{} < {}", a, b);
        }
    }
}

#[test]
fn negation_agrees_with_the_doubles() {
    for a in samples() {
        assert_eq!(negate_number(a.to_bits()), (-a).to_bits(), "-{}", a);
    }
    assert_eq!(negate_number(0), 0x8000_0000_0000_0000);
    assert_eq!(negate_number(0x8000_0000_0000_0000), 0);
}

#[test]
fn comparisons_agree_with_the_doubles() {
    let kinds = vec![
        TokenType::BangEqual,
        TokenType::EqualEqual,
        TokenType::Greater,
        TokenType::GreaterEqual,
        TokenType::Less,
        TokenType::LessEqual,
    ];
    for kind in kinds {
        let token = Token::new(kind, "op".to_string(), None, 1);
        for a in samples() {
            for b in samples() {
                let expected = match kind {
                    TokenType::BangEqual => a != b,
                    TokenType::EqualEqual => a == b,
                    TokenType::Greater => a > b,
                    TokenType::GreaterEqual => a >= b,
                    TokenType::Less => a < b,
                    _ => a <= b,
                };
                let result = number_binary_evaluate(a.to_bits(), b.to_bits(), &token).unwrap();
                assert_eq!(result, Some(Object::from_bool(expected)), "{} {:?} {}", a, kind, b);
            }
        }
    }
}

#[test]
fn arithmetic_is_left_to_the_driver() {
    for kind in vec![TokenType::Plus, TokenType::Minus, TokenType::Star, TokenType::Slash] {
        let token = Token::new(kind, "op".to_string(), None, 1);
        assert_eq!(number_binary_evaluate(1, 2, &token).unwrap(), None);
    }
}

#[test]
fn other_operators_are_refused() {
    let token = Token::new(TokenType::Comma, ",".to_string(), None, 4);
    match number_binary_evaluate(1, 2, &token) {
        Err(LoxResult::RuntimeError { token, message }) => {
            assert_eq!(token.tk_type, TokenType::Comma);
            assert_eq!(token.line, 4);
            assert_eq!(message, "invalid operator");
        }
        other => panic!("no runtime error: {:?}", other),
    }
}

#[test]
fn unary_operators() {
    let minus = Token::new(TokenType::Minus, "-".to_string(), None, 1);
    let bang = Token::new(TokenType::Bang, "!".to_string(), None, 1);
    let plus = Token::new(TokenType::Plus, "+".to_string(), None, 1);
    assert_eq!(
        unary_evaluate(&minus, Object::Number(2.5f64.to_bits())).unwrap(),
        Object::Number((-2.5f64).to_bits())
    );
    assert!(matches!(
        unary_evaluate(&minus, Object::True),
        Err(LoxResult::RuntimeError { .. })
    ));
    assert_eq!(unary_evaluate(&bang, Object::Nil).unwrap(), Object::True);
    assert_eq!(unary_evaluate(&bang, Object::False).unwrap(), Object::True);
    assert_eq!(unary_evaluate(&bang, Object::True).unwrap(), Object::False);
    assert_eq!(unary_evaluate(&bang, Object::Number(0)).unwrap(), Object::False);
    assert_eq!(unary_evaluate(&bang, Object::Str(String::new())).unwrap(), Object::False);
    match unary_evaluate(&plus, Object::Number(0)) {
        Err(LoxResult::RuntimeError { message, .. }) => assert_eq!(message, "invalid expression"),
        other => panic!("no runtime error: {:?}", other),
    }
}

#[test]
fn truthiness_of_values() {
    assert!(!Object::Nil.is_truthy());
    assert!(!Object::False.is_truthy());
    assert!(Object::True.is_truthy());
    assert!(Object::Number(0).is_truthy());
    assert!(Object::Number(f64::NAN.to_bits()).is_truthy());
    assert!(Object::Str(String::new()).is_truthy());
}

#[test]
fn decimal_numerals() {
    assert_eq!(decimal_text(0), "0");
    assert_eq!(decimal_text(7), "7");
    assert_eq!(decimal_text(10), "10");
    assert_eq!(decimal_text(255), "255");
    assert_eq!(decimal_text(1002003), "1002003");
    assert_eq!(decimal_text(usize::MAX), usize::MAX.to_string());
}

#[test]
fn token_helpers() {
    let token = Token::new(TokenType::Identifier, "name".to_string(), None, 3);
    assert!(token.is(TokenType::Identifier));
    assert!(!token.is(TokenType::Eof));
    assert_eq!(token.as_string(), "name");
    let copy = token.clone();
    assert_eq!(copy.lexeme, "name");
    assert_eq!(copy.line, 3);
    let eof = Token::eof(9);
    assert!(eof.is(TokenType::Eof));
    assert_eq!(eof.lexeme, "");
    assert_eq!(eof.line, 9);
    assert!(eof.literal.is_none());
}

#[test]
fn scan_error_report() {
    let error = LoxError::error(12, "Unterminated string".to_string());
    assert_eq!(error.report("here"), "[line: 12], Error here: Unterminated string");
}

#[test]
fn reports() {
    let token = Token::new(TokenType::Plus, "+".to_string(), None, 4);
    let eof = Token::eof(5);
    assert_eq!(
        LoxResult::error(3, "bad".to_string()).report("Error"),
        Some("[line: 3], Error: bad".to_string())
    );
    assert_eq!(
        LoxResult::parse_error(token.clone(), "expect `)`".to_string()).report("Parse Error"),
        Some("[line: 4 at `+`], Parse Error: expect `)`".to_string())
    );
    assert_eq!(
        LoxResult::parse_error(eof, "expect `;`".to_string()).report("Parse Error"),
        Some("[line: 5 at end], Parse Error: expect `;`".to_string())
    );
    assert_eq!(
        LoxResult::runtime_error(&token, "invalid number".to_string()).report("Runtime Error"),
        Some("[line: 4 at `+`], Runtime Error: invalid number".to_string())
    );
    assert_eq!(
        LoxResult::system_error("no clock".to_string()).report("System Error"),
        Some("System Error: no clock".to_string())
    );
    assert_eq!(LoxResult::Break.report("x"), None);
    assert_eq!(LoxResult::return_error(Object::Nil).report("x"), None);
}

#[test]
fn clock_takes_no_arguments() {
    let clock = NativeClock::new();
    assert_eq!(clock.arity(), 0);
    assert_eq!(clock.name(), "clock");
}
