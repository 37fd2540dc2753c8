use lox_ast::error::LoxResult;
use lox_ast::expr::Expr;
use lox_ast::parser::Parser;
use lox_ast::scanner::Scanner;
use lox_ast::stmt::Stmt;
use lox_ast::token::Token;
use lox_ast::token_type::TokenType;
use lox_ast::value::object::Object;

fn scan(source: &str) -> Vec<Token> {
    let mut tokens = Scanner::new(source.to_string()).scan_tokens().expect("scan");
    for token in tokens.iter_mut() {
        if token.tk_type == TokenType::Number {
            let value: f64 = token.lexeme.parse().expect("number");
            token.literal = Some(Object::Number(value.to_bits()));
        }
    }
    tokens
}

fn parse(source: &str) -> Vec<Stmt> {
    Parser::new(&scan(source)).parse().expect("parse")
}

fn parse_error(source: &str) -> (Token, String) {
    match Parser::new(&scan(source)).parse() {
        Err(LoxResult::ParseError { token, message }) => (token, message),
        other => panic!("no parse error: {:?}", other),
    }
}

/// The expression of a program that is one expression statement.
fn expression(source: &str) -> Expr {
    let mut statements = parse(source);
    assert_eq!(statements.len(), 1);
    match statements.pop().unwrap() {
        Stmt::Expression(s) => std::rc::Rc::try_unwrap(s.expression).expect("one owner"),
        other => panic!("no expression statement: {:?}", other),
    }
}

/// The expression written out with every operand in parentheses.
fn show(expr: &Expr) -> String {
    match expr {
        Expr::Assign(e) => format!("({} = {})", e.name.lexeme, show(&e.value)),
        Expr::Binary(e) => format!("({} {} {})", show(&e.left), e.operator.lexeme, show(&e.right)),
        Expr::Logical(e) => format!("({} {} {})", show(&e.left), e.operator.lexeme, show(&e.right)),
        Expr::Grouping(e) => format!("[{}]", show(&e.expression)),
        Expr::Literal(e) => match &e.value {
            Object::Number(bits) => format!("{}", f64::from_bits(*bits)),
            Object::Str(text) => format!("{:?}", text),
            Object::Nil => "nil".to_string(),
            Object::True => "true".to_string(),
            Object::False => "false".to_string(),
            Object::Func(_) => "<fn>".to_string(),
        },
        Expr::Unary(e) => format!("({}{})", e.operator.lexeme, show(&e.right)),
        Expr::Call(e) => {
            let arguments: Vec<String> = e.arguments.iter().map(|a| show(a)).collect();
            format!("{}({})", show(&e.callee), arguments.join(", "))
        }
        Expr::Variable(e) => e.name.lexeme.clone(),
    }
}

fn shape(source: &str) -> String {
    show(&expression(source))
}

/// The statement written out with its parts in braces.
fn outline(stmt: &Stmt) -> String {
    match stmt {
        Stmt::Block(s) => {
            let inner: Vec<String> = s.statements.iter().map(|s| outline(s)).collect();
            format!("{{ {} }}", inner.join(" "))
        }
        Stmt::Expression(s) => format!("{};", show(&s.expression)),
        Stmt::Function(s) => {
            let params: Vec<String> = s.params.iter().map(|p| p.lexeme.clone()).collect();
            let body: Vec<String> = s.body.iter().map(|s| outline(s)).collect();
            format!("func {}({}) {{ {} }}", s.name.lexeme, params.join(", "), body.join(" "))
        }
        Stmt::If(s) => match &s.else_branch {
            Some(other) => format!(
                "if {} then {} else {}",
                show(&s.condition),
                outline(&s.then_branch),
                outline(other)
            ),
            None => format!("if {} then {}", show(&s.condition), outline(&s.then_branch)),
        },
        Stmt::Print(s) => format!("print {};", show(&s.expression)),
        Stmt::Var(s) => match &s.initializer {
            Some(value) => format!("var {} = {};", s.name.lexeme, show(value)),
            None => format!("var {};", s.name.lexeme),
        },
        Stmt::Return(s) => match &s.value {
            Some(value) => format!("return {};", show(value)),
            None => "return;".to_string(),
        },
        Stmt::Break(_) => "break;".to_string(),
        Stmt::While(s) => format!("while {} do {}", show(&s.condition), outline(&s.body)),
    }
}

fn outlines(source: &str) -> Vec<String> {
    parse(source).iter().map(|s| outline(s)).collect()
}

#[test]
fn binary_operators_are_left_associative() {
    assert_eq!(shape("1 - 2 - 3;"), "((1 - 2) - 3)");
    assert_eq!(shape("8 / 4 / 2 * 3;"), "(((8 / 4) / 2) * 3)");
    assert_eq!(shape("a == b != c;"), "((a == b) != c)");
    assert_eq!(shape("a < b <= c > d >= e;"), "((((a < b) <= c) > d) >= e)");
    assert_eq!(shape("a or b or c;"), "((a or b) or c)");
    assert_eq!(shape("a and b and c;"), "((a and b) and c)");
}

#[test]
fn precedence_ladder() {
    assert_eq!(shape("2 + 3 * 4;"), "(2 + (3 * 4))");
    assert_eq!(shape("2 * 3 + 4;"), "((2 * 3) + 4)");
    assert_eq!(shape("a or b and c == d < e + f * -g;"), "(a or (b and (c == (d < (e + (f * (-g)))))))");
    assert_eq!(shape("-a * b;"), "((-a) * b)");
    assert_eq!(shape("!a == b;"), "((!a) == b)");
    assert_eq!(shape("(2 + 3) * 4;"), "([(2 + 3)] * 4)");
    assert_eq!(shape("-f(x);"), "(-f(x))");
    assert_eq!(shape("!!a;"), "(!(!a))");
}

#[test]
fn assignment_is_right_associative() {
    assert_eq!(shape("a = b = c;"), "(a = (b = c))");
    assert_eq!(shape("a = b or c;"), "(a = (b or c))");
}

#[test]
fn assignment_needs_a_variable() {
    let (token, message) = parse_error("1 = 2;");
    assert_eq!(token.tk_type, TokenType::Equal);
    assert_eq!(message, "invalid assign");
    let (token, _) = parse_error("a + b = c;");
    assert_eq!(token.tk_type, TokenType::Equal);
    let (token, _) = parse_error("(a) = 1;");
    assert_eq!(token.tk_type, TokenType::Equal);
    let (token, _) = parse_error("f() = 1;");
    assert_eq!(token.tk_type, TokenType::Equal);
}

#[test]
fn primaries() {
    assert_eq!(shape("12.5;"), "12.5");
    assert_eq!(shape("\"text\";"), "\"text\"");
    assert_eq!(shape("true;"), "true");
    assert_eq!(shape("false;"), "false");
    assert_eq!(shape("nil;"), "nil");
    assert_eq!(shape("name;"), "name");
    assert_eq!(shape("((a));"), "[[a]]");
}

#[test]
fn calls_are_postfix_and_chain() {
    assert_eq!(shape("f();"), "f()");
    assert_eq!(shape("f(1, a + b, g(2));"), "f(1, (a + b), g(2))");
    assert_eq!(shape("f()();"), "f()()");
    assert_eq!(shape("f(a)(b)(c);"), "f(a)(b)(c)");
    assert_eq!(shape("(f)(1);"), "[f](1)");
    match expression("f(1)(2);") {
        Expr::Call(outer) => {
            assert_eq!(outer.paren.tk_type, TokenType::RightParen);
            assert_eq!(outer.arguments.len(), 1);
            assert!(matches!(&*outer.callee, Expr::Call(_)));
        }
        other => panic!("no call: {:?}", other),
    }
}

fn call_with(count: usize) -> String {
    let arguments: Vec<String> = (0..count).map(|i| i.to_string()).collect();
    format!("f({});", arguments.join(", "))
}

#[test]
fn at_most_255_arguments() {
    match expression(&call_with(255)) {
        Expr::Call(call) => assert_eq!(call.arguments.len(), 255),
        other => panic!("no call: {:?}", other),
    }
    let (token, message) = parse_error(&call_with(256));
    assert_eq!(message, "can't have more than 255 arguments");
    assert_eq!(token.lexeme, "255");
}

#[test]
fn at_most_255_parameters() {
    let names: Vec<String> = (0..255).map(|i| format!("p{}", i)).collect();
    let source = format!("func f({}) {{}}", names.join(", "));
    match &parse(&source)[0] {
        Stmt::Function(function) => assert_eq!(function.params.len(), 255),
        other => panic!("no function: {:?}", other),
    }
    let names: Vec<String> = (0..256).map(|i| format!("p{}", i)).collect();
    let source = format!("func f({}) {{}}", names.join(", "));
    let (token, message) = parse_error(&source);
    assert_eq!(message, "can't have more than 255 parameters");
    assert_eq!(token.lexeme, "p255");
}

#[test]
fn primary_error_takes_nothing() {
    let tokens = scan("+ 1;");
    let mut parser = Parser::new(&tokens);
    match parser.expression() {
        Err(LoxResult::ParseError { token, message }) => {
            assert_eq!(token.tk_type, TokenType::Plus);
            assert_eq!(message, "failed primary parse");
        }
        other => panic!("no parse error: {:?}", other),
    }
    // still at the offending token: the next expression fails there too
    match parser.expression() {
        Err(LoxResult::ParseError { token, .. }) => assert_eq!(token.tk_type, TokenType::Plus),
        other => panic!("no parse error: {:?}", other),
    }
}

#[test]
fn number_without_a_value_is_refused() {
    let tokens = Scanner::new("1;".to_string()).scan_tokens().unwrap();
    match Parser::new(&tokens).parse() {
        Err(LoxResult::ParseError { token, message }) => {
            assert_eq!(token.lexeme, "1");
            assert_eq!(message, "literal without a value");
        }
        other => panic!("no parse error: {:?}", other),
    }
}

#[test]
fn statements() {
    assert_eq!(outlines("print 1; x;"), vec!["print 1;", "x;"]);
    assert_eq!(outlines("var a; var b = 1 + 2;"), vec!["var a;", "var b = (1 + 2);"]);
    assert_eq!(outlines("{ } { a; { b; } }"), vec!["{  }", "{ a; { b; } }"]);
    assert_eq!(outlines("if (a) b; else c;"), vec!["if a then b; else c;"]);
    assert_eq!(outlines("if (a) b;"), vec!["if a then b;"]);
    assert_eq!(outlines("while (a < 1) { a = a + 1; }"), vec!["while (a < 1) do { (a = (a + 1)); }"]);
    assert_eq!(outlines("while (a) break;"), vec!["while a do break;"]);
    assert_eq!(outlines("return; return 1;"), vec!["return;", "return 1;"]);
    assert_eq!(
        outlines("func add(a, b) { return a + b; } func none() {}"),
        vec!["func add(a, b) { return (a + b); }", "func none() {  }"]
    );
}

#[test]
fn else_belongs_to_the_nearest_if() {
    assert_eq!(outlines("if (a) if (b) c; else d;"), vec!["if a then if b then c; else d;"]);
}

#[test]
fn for_is_a_while_in_blocks() {
    assert_eq!(
        outlines("for (var i = 0; i < 3; i = i + 1) print i;"),
        vec!["{ var i = 0; while (i < 3) do { print i; (i = (i + 1)); } }"]
    );
    assert_eq!(outlines("for (;;) x;"), vec!["while true do x;"]);
    assert_eq!(outlines("for (i = 0;;) x;"), vec!["{ (i = 0); while true do x; }"]);
    assert_eq!(outlines("for (; i < 2;) x;"), vec!["while (i < 2) do x;"]);
    assert_eq!(outlines("for (;; i = i + 1) x;"), vec!["while true do { x; (i = (i + 1)); }"]);
}

#[test]
fn return_keeps_its_keyword() {
    match &parse("\n\nreturn 1;")[0] {
        Stmt::Return(s) => {
            assert_eq!(s.name.tk_type, TokenType::Return);
            assert_eq!(s.name.line, 3);
        }
        other => panic!("no return: {:?}", other),
    }
}

#[test]
fn messages_of_missing_tokens() {
    assert_eq!(parse_error("print 1").1, "expect `;` after expression");
    assert_eq!(parse_error("1 + 2").1, "expect `;` after expression");
    assert_eq!(parse_error("var 1;").1, "expect variable name");
    assert_eq!(parse_error("var a = 1").1, "expect `;` after variable declaration");
    assert_eq!(parse_error("(1;").1, "expect `)` after expression");
    assert_eq!(parse_error("f(1;").1, "expect `)`");
    assert_eq!(parse_error("{ a;").1, "expected `}`");
    assert_eq!(parse_error("if a) b;").1, "expect `(` after if");
    assert_eq!(parse_error("if (a b;").1, "expect `)`");
    assert_eq!(parse_error("while a) b;").1, "expect `(` after while");
    assert_eq!(parse_error("while (a b;").1, "expect `)` after condition");
    assert_eq!(parse_error("for a;;) b;").1, "expect `(` after `for`");
    assert_eq!(parse_error("for (;a) b;").1, "expect `;` in `for` middle");
    assert_eq!(parse_error("for (;;a b;").1, "expect `)` after `for` end");
    assert_eq!(parse_error("break").1, "expect `;` after break statement");
    assert_eq!(parse_error("return 1").1, "expect `;` after return");
    assert_eq!(parse_error("func (a) {}").1, "expect a function name");
    assert_eq!(parse_error("func f a) {}").1, "expect `(` after function name");
    assert_eq!(parse_error("func f(a {}").1, "expect `)` after parameters");
    assert_eq!(parse_error("func f(a) a;").1, "expect `{` before function body");
    assert_eq!(parse_error("func f(1) {}").1, "expect a param name");
    assert_eq!(parse_error("func f(a,) {}").1, "expect a param name");
    assert_eq!(parse_error(";").1, "failed primary parse");
}

#[test]
fn error_at_the_end_names_the_last_token() {
    let (token, _) = parse_error("print 1");
    assert_eq!(token.tk_type, TokenType::Eof);
}

#[test]
fn parsing_resumes_behind_the_next_semicolon() {
    let tokens = scan("1 +; print 2; print 3;");
    let mut parser = Parser::new(&tokens);
    match parser.parse() {
        Err(LoxResult::ParseError { token, message }) => {
            assert_eq!(token.tk_type, TokenType::SemiColon);
            assert_eq!(message, "failed primary parse");
        }
        other => panic!("no parse error: {:?}", other),
    }
    let rest = parser.parse().expect("the rest parses");
    let found: Vec<String> = rest.iter().map(|s| outline(s)).collect();
    assert_eq!(found, vec!["print 2;", "print 3;"]);
}

#[test]
fn parsing_resumes_before_a_statement_keyword() {
    let tokens = scan("var = 1 2 3 print 4; x;");
    let mut parser = Parser::new(&tokens);
    assert!(parser.parse().is_err());
    let rest = parser.parse().expect("the rest parses");
    let found: Vec<String> = rest.iter().map(|s| outline(s)).collect();
    assert_eq!(found, vec!["print 4;", "x;"]);
}

#[test]
fn statements_before_an_error_are_lost_with_the_call() {
    let tokens = scan("print 1; print; print 3;");
    let mut parser = Parser::new(&tokens);
    assert!(parser.parse().is_err());
    let rest = parser.parse().expect("the rest parses");
    assert_eq!(rest.len(), 1);
    assert_eq!(outline(&rest[0]), "print 3;");
}

#[test]
fn synchronize_passes_to_a_boundary() {
    let tokens = scan("a b c; d");
    let mut parser = Parser::new(&tokens);
    parser.synchronize();
    match parser.expression() {
        Ok(Expr::Variable(v)) => assert_eq!(v.name.lexeme, "d"),
        other => panic!("not at d: {:?}", other),
    }
    let tokens = scan("a b while (c) d;");
    let mut parser = Parser::new(&tokens);
    parser.synchronize();
    let rest = parser.parse().expect("the rest parses");
    assert_eq!(outline(&rest[0]), "while c do d;");
}

#[test]
fn empty_program() {
    assert!(parse("").is_empty());
    assert!(parse("// only a comment").is_empty());
}

#[test]
fn tokens_without_an_end_are_parsed_too() {
    let mut tokens = scan("print 1;");
    tokens.pop();
    let statements = Parser::new(&tokens).parse().expect("parse");
    assert_eq!(statements.len(), 1);
    tokens.pop();
    match Parser::new(&tokens).parse() {
        Err(LoxResult::ParseError { token, message }) => {
            assert_eq!(token.tk_type, TokenType::Eof);
            assert_eq!(message, "expect `;` after expression");
        }
        other => panic!("no parse error: {:?}", other),
    }
    assert!(Parser::new(&Vec::new()).parse().expect("parse").is_empty());
}

#[test]
fn errors_are_passed_over() {
    let tokens = scan("print 1; 1 +; print 2; var = 3; { x; } print");
    let mut parser = Parser::new(&tokens);
    let (statements, errors) = parser.parse_all();
    let found: Vec<String> = statements.iter().map(|s| outline(s)).collect();
    assert_eq!(found, vec!["print 1;", "print 2;", "{ x; }"]);
    let messages: Vec<String> = errors
        .iter()
        .map(|error| match error {
            LoxResult::ParseError { message, .. } => message.clone(),
            other => panic!("no parse error: {:?}", other),
        })
        .collect();
    assert_eq!(messages, vec!["failed primary parse", "expect variable name", "failed primary parse"]);
    // all tokens have been passed
    assert!(parser.parse().expect("nothing is left").is_empty());
}

#[test]
fn program_without_errors_is_parsed_whole() {
    let tokens = scan("var a = 1; print a;");
    let (statements, errors) = Parser::new(&tokens).parse_all();
    assert_eq!(statements.len(), 2);
    assert!(errors.is_empty());
}
