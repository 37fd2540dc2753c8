use lox_ast::environment::Environment;
use lox_ast::error::LoxResult;
use lox_ast::token::Token;
use lox_ast::token_type::TokenType;
use lox_ast::value::object::Object;

fn number(value: f64) -> Object {
    Object::Number(value.to_bits())
}

fn name(lexeme: &str, line: usize) -> Token {
    Token::new(TokenType::Identifier, lexeme.to_string(), None, line)
}

#[test]
fn test_assign() {
    let mut e = Environment::new();

    let lexeme = "test";
    let token = Token::new(TokenType::Identifier, lexeme.to_string(), None, 0);
    e.define(0, lexeme.to_string(), number(10.0));
    assert!(e.assign(0, &token, number(20.0)).is_ok());
    assert_eq!(e.get(0, &token).unwrap(), number(20.0));
}

#[test]
fn can_enclose_an_environment() {
    let mut env = Environment::new();
    let enclose_env = env.new_enclosing(0);
    assert_eq!(env.enclosing(enclose_env), Some(0));
    assert_eq!(env.enclosing(0), None);
    assert_eq!(env.len(), 2);
}

#[test]
fn can_read_form_enclose_environment() {
    let mut env = Environment::new();
    let lexeme = "test";
    env.define(0, lexeme.to_string(), number(10.0));

    let enclose_env = env.new_enclosing(0);

    let name = Token::new(TokenType::Identifier, lexeme.to_string(), None, 0);
    assert_eq!(env.get(enclose_env, &name).unwrap(), number(10.0));
}

#[test]
fn can_assign_enclose_environment() {
    let mut env = Environment::new();
    let lexeme = "test";
    env.define(0, lexeme.to_string(), number(10.0));

    let enclose_env = env.new_enclosing(0);

    let name = Token::new(TokenType::Identifier, lexeme.to_string(), None, 0);
    assert!(env.assign(enclose_env, &name, number(20.0)).is_ok());
    assert_eq!(env.get(enclose_env, &name).unwrap(), number(20.0));
    // the assignment went to the scope that binds the name
    assert_eq!(env.get(0, &name).unwrap(), number(20.0));
}

#[test]
fn assign_makes_no_binding() {
    let mut env = Environment::new();
    let inner = env.new_enclosing(0);
    let x = name("x", 3);
    match env.assign(inner, &x, Object::Nil) {
        Err(LoxResult::RuntimeError { token, message }) => {
            assert_eq!(token.lexeme, "x");
            assert_eq!(token.line, 3);
            assert_eq!(message, "undefined variable `x`");
        }
        other => panic!("no runtime error: {:?}", other),
    }
    assert!(env.get(inner, &x).is_err());
    assert!(env.get(0, &x).is_err());
}

#[test]
fn get_of_unbound_name_fails() {
    let env = Environment::new();
    match env.get(0, &name("missing", 7)) {
        Err(LoxResult::RuntimeError { token, message }) => {
            assert_eq!(token.line, 7);
            assert_eq!(message, "undefined variable `missing`");
        }
        other => panic!("no runtime error: {:?}", other),
    }
}

#[test]
fn define_shadows_and_leaves_the_outer_scope_alone() {
    let mut env = Environment::new();
    env.define(0, "x".to_string(), number(1.0));
    let inner = env.new_enclosing(0);
    env.define(inner, "x".to_string(), number(2.0));
    let x = name("x", 1);
    assert_eq!(env.get(inner, &x).unwrap(), number(2.0));
    assert_eq!(env.get(0, &x).unwrap(), number(1.0));
    // an assignment from the inner scope now stays there
    env.assign(inner, &x, number(3.0)).unwrap();
    assert_eq!(env.get(inner, &x).unwrap(), number(3.0));
    assert_eq!(env.get(0, &x).unwrap(), number(1.0));
}

#[test]
fn define_overwrites() {
    let mut env = Environment::new();
    env.define(0, "x".to_string(), number(1.0));
    env.define(0, "y".to_string(), Object::True);
    env.define(0, "x".to_string(), Object::Str("again".to_string()));
    assert_eq!(env.get(0, &name("x", 1)).unwrap(), Object::Str("again".to_string()));
    assert_eq!(env.get(0, &name("y", 1)).unwrap(), Object::True);
}

#[test]
fn lookup_walks_the_whole_chain() {
    let mut env = Environment::new();
    env.define(0, "a".to_string(), number(1.0));
    let first = env.new_enclosing(0);
    env.define(first, "b".to_string(), number(2.0));
    let second = env.new_enclosing(first);
    let sibling = env.new_enclosing(0);
    assert_eq!(env.get(second, &name("a", 1)).unwrap(), number(1.0));
    assert_eq!(env.get(second, &name("b", 1)).unwrap(), number(2.0));
    // a sibling scope does not see what is not on its chain
    assert!(env.get(sibling, &name("b", 1)).is_err());
    env.assign(second, &name("a", 1), number(5.0)).unwrap();
    assert_eq!(env.get(sibling, &name("a", 1)).unwrap(), number(5.0));
}
