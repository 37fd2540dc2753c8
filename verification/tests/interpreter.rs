use lox_ast::error::LoxResult;
use lox_ast::expr::BinaryExpr;
use lox_ast::expr::Expr;
use lox_ast::expr::LiteralExpr;
use lox_ast::interpreter::machine::Action;
use lox_ast::interpreter::machine::Event;
use lox_ast::interpreter::machine::Printed;
use lox_ast::interpreter::Interpreter;
use lox_ast::parser::Parser;
use lox_ast::scanner::Scanner;
use lox_ast::token::Token;
use lox_ast::token_type::TokenType;
use lox_ast::value::object::Object;
use std::rc::Rc;

fn number(value: f64) -> Object {
    Object::Number(value.to_bits())
}

fn arithmetic(operator: TokenType, left: u64, right: u64) -> u64 {
    let a = f64::from_bits(left);
    let b = f64::from_bits(right);
    let result = match operator {
        TokenType::Plus => a + b,
        TokenType::Minus => a - b,
        TokenType::Star => a * b,
        TokenType::Slash => a / b,
        _ => unreachable!("no arithmetic operator"),
    };
    result.to_bits()
}

/// What a run printed and what it reported.
struct Log {
    printed: Vec<String>,
    reported: Vec<LoxResult>,
    natives: Vec<String>,
}

/// Steps the interpreter until nothing is left to do, doing what it asks.
fn drive(interpreter: &mut Interpreter) -> Log {
    let mut log = Log { printed: vec![], reported: vec![], natives: vec![] };
    let mut event = Event::Nothing;
    let mut steps = 0;
    loop {
        steps += 1;
        assert!(steps < 1_000_000, "the program does not end");
        let action = interpreter.step(event);
        event = Event::Nothing;
        match action {
            Action::Continue => {}
            Action::Arithmetic { operator, left, right } => {
                event = Event::Number(arithmetic(operator, left, right));
            }
            Action::Print(Printed::Number(bits)) => {
                log.printed.push(format!("{}", f64::from_bits(bits)));
            }
            Action::Print(Printed::Text(text)) => log.printed.push(text),
            Action::Native { name, arguments } => {
                log.natives.push(name.clone());
                if name == "clock" {
                    assert!(arguments.is_empty());
                    event = Event::Value(number(1234.0));
                } else {
                    event = Event::Failure(format!("no native function `{}`", name));
                }
            }
            Action::Report(error) => log.reported.push(error),
            Action::Finished => return log,
        }
    }
}

fn scan(source: &str) -> Vec<Token> {
    let mut tokens = Scanner::new(source.to_string()).scan_tokens().expect("scan");
    for token in tokens.iter_mut() {
        if token.tk_type == TokenType::Number {
            let value: f64 = token.lexeme.parse().expect("number");
            token.literal = Some(number(value));
        }
    }
    tokens
}

/// Runs a program on a given interpreter.
fn run_on(interpreter: &mut Interpreter, source: &str) -> Log {
    let tokens = scan(source);
    let statements = Parser::new(&tokens).parse().expect("parse");
    interpreter.interpreter(statements);
    drive(interpreter)
}

/// Runs a program and gives the lines it printed; it must report nothing.
fn run(source: &str) -> Vec<String> {
    let mut interpreter = Interpreter::new();
    let log = run_on(&mut interpreter, source);
    assert!(log.reported.is_empty(), "reported: {:?}", log.reported);
    log.printed
}

/// Runs a program and gives the messages of the errors it reported.
fn errors(source: &str) -> Vec<String> {
    let mut interpreter = Interpreter::new();
    let log = run_on(&mut interpreter, source);
    log.reported
        .iter()
        .map(|error| match error {
            LoxResult::RuntimeError { message, .. } => message.clone(),
            other => panic!("no runtime error: {:?}", other),
        })
        .collect()
}

/// Evaluates one expression to its value.
fn evaluate(expr: Expr) -> Result<Object, LoxResult> {
    let mut interpreter = Interpreter::new();
    let first = interpreter.evaluate(&Rc::new(expr));
    let mut log = drive(&mut interpreter);
    if let Action::Report(error) = first {
        return Err(error);
    }
    if let Some(error) = log.reported.pop() {
        return Err(error);
    }
    Ok(interpreter.take_value().expect("a value"))
}

fn make_literal(value: Object) -> Rc<Expr> {
    Rc::new(Expr::Literal(LiteralExpr { value }))
}

#[test]
fn interpreter_test_binary_add() {
    let left = make_literal(number(15.0));
    let right = make_literal(number(15.0));
    let operator = Token::new(TokenType::Plus, "+".to_string(), None, 10);
    let expr = Expr::Binary(BinaryExpr { left, operator, right });

    let res = evaluate(expr);
    assert!(res.is_ok());
    assert_eq!(res.ok(), Some(number(30.0)));
}

fn test_binary_num(left: f64, operator: &Token, expected: Vec<Object>) {
    let num = vec![5.0, 20.0, 50.0];
    for (b, right) in expected.iter().zip(num) {
        let left = make_literal(number(left));
        let right = make_literal(number(right));
        let expr = Expr::Binary(BinaryExpr { left, operator: operator.clone(), right });
        let res = evaluate(expr);
        assert!(res.is_ok());
        assert_eq!(res.ok(), Some(b.clone()));
    }
}

#[test]
fn interpreter_test_comparison() {
    let operator = Token::new(TokenType::EqualEqual, "==".to_string(), None, 10);
    let expected: Vec<Object> = vec![Object::False, Object::True, Object::False];
    test_binary_num(20.0, &operator, expected);
}

#[test]
fn expr_interpreter_test_binary_add() {
    let left = make_literal(number(15.0));
    let right = make_literal(number(15.0));
    let operator = Token::new(TokenType::Plus, "+".to_string(), None, 10);
    let expr = Expr::Binary(BinaryExpr { left, operator, right });

    let res = evaluate(expr);
    assert!(res.is_ok());
    assert_eq!(res.ok(), Some(number(30.0)));
}

#[test]
fn expr_interpreter_test_comparison() {
    let operator = Token::new(TokenType::EqualEqual, "==".to_string(), None, 10);
    let expected: Vec<Object> = vec![Object::False, Object::True, Object::False];
    test_binary_num(20.0, &operator, expected);
}

#[test]
fn literal_evaluates_to_its_value() {
    assert_eq!(run("print 12.5;"), vec!["12.5"]);
    assert_eq!(run("print 0;"), vec!["0"]);
    assert_eq!(run("print \"text\";"), vec!["text"]);
    assert_eq!(run("print nil; print true; print false;"), vec!["nil", "true", "false"]);
}

#[test]
fn equality_of_numbers_and_nil() {
    assert_eq!(run("print nil == nil;"), vec!["true"]);
    assert_eq!(run("print 1 == 1;"), vec!["true"]);
    assert_eq!(run("print 1 == 2;"), vec!["false"]);
    assert_eq!(run("print 1 != 2;"), vec!["true"]);
}

#[test]
fn strings_are_not_compared() {
    assert_eq!(errors("print \"1\" == \"1\";"), vec!["interpreter error invalid number"]);
    assert_eq!(errors("print 1 == nil;"), vec!["interpreter error invalid number"]);
    assert_eq!(errors("print nil != nil;"), vec!["interpreter error invalid number"]);
    assert_eq!(errors("print \"a\" + \"b\";"), vec!["interpreter error invalid number"]);
}

#[test]
fn subtraction_is_left_associative() {
    assert_eq!(run("print 1 - 2 - 3;"), vec!["-4"]);
    assert_eq!(run("print 8 / 4 / 2;"), vec!["1"]);
}

#[test]
fn factor_binds_tighter_than_term() {
    assert_eq!(run("print 2 + 3 * 4;"), vec!["14"]);
    assert_eq!(run("print (2 + 3) * 4;"), vec!["20"]);
    assert_eq!(run("print 1 + 2 < 4;"), vec!["true"]);
}

#[test]
fn truthiness() {
    assert_eq!(run("print !nil;"), vec!["true"]);
    assert_eq!(run("print !0;"), vec!["false"]);
    assert_eq!(run("print !false;"), vec!["true"]);
    assert_eq!(run("print !\"\";"), vec!["false"]);
    assert_eq!(run("if (0) print 1; else print 2;"), vec!["1"]);
    assert_eq!(run("if (nil) print 1; else print 2;"), vec!["2"]);
    assert_eq!(run("if (false) print 1;"), Vec::<String>::new());
}

#[test]
fn unary_minus() {
    assert_eq!(run("print -3;"), vec!["-3"]);
    assert_eq!(run("print --3;"), vec!["3"]);
    assert_eq!(run("print -0;"), vec!["-0"]);
    assert_eq!(errors("print -nil;"), vec!["invalid number"]);
    assert_eq!(errors("print -\"a\";"), vec!["invalid number"]);
}

#[test]
fn comparisons_follow_the_doubles() {
    assert_eq!(run("print 1 < 2; print 2 < 1; print 2 <= 2;"), vec!["true", "false", "true"]);
    assert_eq!(run("print 1 > 2; print 2 > 1; print 2 >= 3;"), vec!["false", "true", "false"]);
    assert_eq!(run("print -1 < 0; print 0 == -0; print -2 < -1;"), vec!["true", "true", "true"]);
    // 0/0 is not a number: it equals nothing and is ordered with nothing
    assert_eq!(
        run("var n = 0 / 0; print n == n; print n != n; print n < 1; print n >= 1;"),
        vec!["false", "true", "false", "false"]
    );
    assert_eq!(run("print 1 / 0 > 100000; print -1 / 0 < -100000;"), vec!["true", "true"]);
}

#[test]
fn logical_operators_short_circuit() {
    assert_eq!(run("print nil or 2;"), vec!["2"]);
    assert_eq!(run("print 1 or 2;"), vec!["1"]);
    assert_eq!(run("print nil and 2;"), vec!["nil"]);
    assert_eq!(run("print 1 and 2;"), vec!["2"]);
    // the right operand is not evaluated where the left one decides
    assert_eq!(run("var x = 1; true or (x = 2); print x;"), vec!["1"]);
    assert_eq!(run("var x = 1; false and (x = 2); print x;"), vec!["1"]);
    assert_eq!(run("var x = 1; false or (x = 2); print x;"), vec!["2"]);
}

#[test]
fn inner_declaration_shadows() {
    assert_eq!(run("var x = 1; { var x = 2; print x; } print x;"), vec!["2", "1"]);
}

#[test]
fn variable_without_initializer_is_nil() {
    assert_eq!(run("var x; print x;"), vec!["nil"]);
}

#[test]
fn closure_outlives_its_block() {
    let source = "var f; { var captured = 7; func get() { return captured; } f = get; } \
                  print f();";
    assert_eq!(run(source), vec!["7"]);
}

#[test]
fn closure_sees_later_changes_of_its_scope() {
    let source = "func counter() { var n = 0; func next() { n = n + 1; return n; } \
                  return next; } var c = counter(); print c(); print c(); \
                  var d = counter(); print d();";
    assert_eq!(run(source), vec!["1", "2", "1"]);
}

#[test]
fn scoping_is_lexical() {
    let source = "var x = 1; func show() { print x; } { var x = 2; show(); }";
    assert_eq!(run(source), vec!["1"]);
}

#[test]
fn assignment_to_undeclared_name_fails() {
    assert_eq!(errors("x = 1;"), vec!["undefined variable `x`"]);
    assert_eq!(errors("print y;"), vec!["undefined variable `y`"]);
}

#[test]
fn assignment_reaches_the_outer_binding() {
    assert_eq!(run("var x = 1; { x = 2; } print x;"), vec!["2"]);
    assert_eq!(run("var x = 1; { { x = x + 1; } print x; } print x;"), vec!["2", "2"]);
}

#[test]
fn assignment_is_an_expression() {
    assert_eq!(run("var x; var y; x = y = 3; print x; print y;"), vec!["3", "3"]);
    assert_eq!(run("var x; print x = 2;"), vec!["2"]);
}

#[test]
fn break_ends_the_loop_only() {
    let source = "var i = 0; while (true) { i = i + 1; if (i > 2) break; } print i; print 9;";
    assert_eq!(run(source), vec!["3", "9"]);
}

#[test]
fn break_leaves_the_inner_loop() {
    let source = "var i = 0; while (i < 2) { i = i + 1; while (true) { break; } print i; }";
    assert_eq!(run(source), vec!["1", "2"]);
}

#[test]
fn break_outside_a_loop_ends_the_statement_silently() {
    assert_eq!(run("{ print 1; break; print 2; } print 3;"), vec!["1", "3"]);
    assert_eq!(run("return 1; print 3;"), vec!["3"]);
}

#[test]
fn while_loop_counts() {
    assert_eq!(run("var i = 0; while (i < 3) { print i; i = i + 1; }"), vec!["0", "1", "2"]);
    assert_eq!(run("while (false) print 1;"), Vec::<String>::new());
}

#[test]
fn for_loop_is_a_while_loop() {
    assert_eq!(run("for (var i = 0; i < 3; i = i + 1) print i;"), vec!["0", "1", "2"]);
    assert_eq!(run("var i = 5; for (; i < 7;) { print i; i = i + 1; }"), vec!["5", "6"]);
    assert_eq!(run("for (var i = 0; ; i = i + 1) { if (i >= 2) break; print i; }"), vec!["0", "1"]);
    // the loop variable lives in the loop's own scope
    assert_eq!(errors("for (var i = 0; i < 1; i = i + 1) {} print i;"), vec!["undefined variable `i`"]);
}

#[test]
fn wrong_number_of_arguments() {
    for (call, message) in [
        ("f();", "expected 1 arguments but got 0"),
        ("f(1, 2);", "expected 1 arguments but got 2"),
    ] {
        let mut interpreter = Interpreter::new();
        let log = run_on(&mut interpreter, &format!("func f(a) {{ print 1; }} {}", call));
        // the body has not run
        assert!(log.printed.is_empty());
        assert_eq!(log.reported.len(), 1);
        match &log.reported[0] {
            LoxResult::RuntimeError { message: found, token } => {
                assert_eq!(token.tk_type, TokenType::RightParen);
                assert_eq!(found, message);
            }
            other => panic!("no runtime error: {:?}", other),
        }
    }
    assert_eq!(run("func f(a) { print a; } f(1);"), vec!["1"]);
}

#[test]
fn arguments_of_a_refused_call_are_counted_after_they_were_evaluated() {
    let source = "func f(a) {} func show(x) { print x; return x; } f(show(1), show(2));";
    let mut interpreter = Interpreter::new();
    let log = run_on(&mut interpreter, source);
    assert_eq!(log.printed, vec!["1", "2"]);
    assert_eq!(log.reported.len(), 1);
}

#[test]
fn callee_is_tested_before_the_arguments_are_evaluated() {
    let source = "func show(x) { print x; return x; } var n = 1; n(show(1), show(2));";
    let mut interpreter = Interpreter::new();
    let log = run_on(&mut interpreter, source);
    assert!(log.printed.is_empty());
    assert_eq!(log.reported.len(), 1);
    match &log.reported[0] {
        LoxResult::RuntimeError { message, token } => {
            assert_eq!(token.tk_type, TokenType::RightParen);
            assert_eq!(message, "can only call functions");
        }
        other => panic!("no runtime error: {:?}", other),
    }
}

#[test]
fn only_functions_are_called() {
    assert_eq!(errors("var x = 1; x();"), vec!["can only call functions"]);
    assert_eq!(errors("\"text\"();"), vec!["can only call functions"]);
}

#[test]
fn return_unwinds_nested_blocks() {
    let source = "func f() { { { return 5; } } print 0; } print f();";
    assert_eq!(run(source), vec!["5"]);
    let source = "func f() { while (true) { if (true) { return 6; } } } print f();";
    assert_eq!(run(source), vec!["6"]);
}

#[test]
fn function_without_return_gives_nil() {
    assert_eq!(run("func f() { 1; } print f();"), vec!["nil"]);
    assert_eq!(run("func f() { return; } print f();"), vec!["nil"]);
}

#[test]
fn return_restores_the_callers_scope() {
    let source = "var x = 1; func f(x) { { var x = 3; return x; } } print f(2) + x; print x;";
    assert_eq!(run(source), vec!["4", "1"]);
}

#[test]
fn arguments_are_evaluated_in_order() {
    let source = "func show(x) { print x; return x; } func add(a, b) { return a + b; } \
                  print add(show(1), show(2));";
    assert_eq!(run(source), vec!["1", "2", "3"]);
}

#[test]
fn recursion() {
    let source = "func fib(n) { if (n < 2) return n; return fib(n - 1) + fib(n - 2); } \
                  print fib(10);";
    assert_eq!(run(source), vec!["55"]);
}

#[test]
fn calls_chain() {
    let source = "func outer() { func inner() { return 3; } return inner; } print outer()();";
    assert_eq!(run(source), vec!["3"]);
}

#[test]
fn functions_print_by_name() {
    assert_eq!(run("func f() {} print f;"), vec!["<Func f>"]);
    assert_eq!(run("print clock;"), vec!["<native clock>"]);
}

#[test]
fn clock_is_asked_of_the_driver() {
    let mut interpreter = Interpreter::new();
    let log = run_on(&mut interpreter, "print clock();");
    assert_eq!(log.natives, vec!["clock"]);
    assert_eq!(log.printed, vec!["1234"]);
    assert_eq!(errors("clock(1);"), vec!["expected 0 arguments but got 1"]);
}

#[test]
fn native_failure_is_a_system_error() {
    let mut interpreter = Interpreter::new();
    interpreter.define_native("missing".to_string(), 1);
    let log = run_on(&mut interpreter, "print 1; print missing(1); print 2;");
    assert_eq!(log.printed, vec!["1"]);
    assert_eq!(log.reported.len(), 1);
    match &log.reported[0] {
        LoxResult::SystemError { message } => assert_eq!(message, "no native function `missing`"),
        other => panic!("no system error: {:?}", other),
    }
}

#[test]
fn unexpected_answer_is_a_system_error() {
    let mut interpreter = Interpreter::new();
    let tokens = scan("print 1 + 2; print 3;");
    interpreter.interpreter(Parser::new(&tokens).parse().expect("parse"));
    let mut action = interpreter.step(Event::Nothing);
    while !matches!(action, Action::Arithmetic { .. }) {
        action = interpreter.step(Event::Nothing);
    }
    // the machine waits for a number and is given none
    match interpreter.step(Event::Nothing) {
        Action::Report(LoxResult::SystemError { message }) => {
            assert_eq!(message, "unexpected answer")
        }
        other => panic!("no system error: {:?}", other),
    }
    // the program was given up
    assert!(!interpreter.is_busy());
    assert!(matches!(interpreter.step(Event::Nothing), Action::Finished));
}

#[test]
fn arithmetic_is_done_by_the_driver() {
    let mut interpreter = Interpreter::new();
    let tokens = scan("print 6 / 4;");
    interpreter.interpreter(Parser::new(&tokens).parse().expect("parse"));
    let mut action = interpreter.step(Event::Nothing);
    while matches!(action, Action::Continue) {
        action = interpreter.step(Event::Nothing);
    }
    match action {
        Action::Arithmetic { operator, left, right } => {
            assert_eq!(operator, TokenType::Slash);
            assert_eq!(left, 6.0f64.to_bits());
            assert_eq!(right, 4.0f64.to_bits());
        }
        other => panic!("no arithmetic: {:?}", other),
    }
    // whatever the driver answers is the value
    assert!(matches!(interpreter.step(Event::Number(7.0f64.to_bits())), Action::Continue));
    let log = drive(&mut interpreter);
    assert_eq!(log.printed, vec!["7"]);
}

#[test]
fn runtime_error_ends_the_program() {
    let mut interpreter = Interpreter::new();
    let source = "var x = 1; print x; { var y = 2; print y + nil; } print x; x = 2;";
    let log = run_on(&mut interpreter, source);
    // what stands behind the failing statement has not run
    assert_eq!(log.printed, vec!["1"]);
    assert_eq!(log.reported.len(), 1);
    assert_eq!(interpreter.environment(), interpreter.globals());
    assert!(!interpreter.is_busy());
    // what was done before the error stays done
    let log = run_on(&mut interpreter, "print x;");
    assert_eq!(log.printed, vec!["1"]);
}

#[test]
fn error_in_a_function_ends_the_program() {
    let source = "func f() { while (true) { { return -nil; } } }                   var a = 1; print a; a = f(); print a;";
    let mut interpreter = Interpreter::new();
    let log = run_on(&mut interpreter, source);
    assert_eq!(log.printed, vec!["1"]);
    assert_eq!(log.reported.len(), 1);
    assert_eq!(interpreter.environment(), interpreter.globals());
}

#[test]
fn error_ends_the_newest_program_only() {
    let mut interpreter = Interpreter::new();
    let first = scan("print 1; print 2;");
    interpreter.interpreter(Parser::new(&first).parse().expect("parse"));
    // a second program is put before the first one has run
    let second = scan("print 3; print nil + 1; print 4;");
    interpreter.interpreter(Parser::new(&second).parse().expect("parse"));
    let log = drive(&mut interpreter);
    assert_eq!(log.printed, vec!["3", "1", "2"]);
    assert_eq!(log.reported.len(), 1);
}

#[test]
fn definitions_persist_across_programs() {
    let mut interpreter = Interpreter::new();
    let log = run_on(&mut interpreter, "var x = 1; func twice(n) { return 2 * n; }");
    assert!(log.printed.is_empty());
    let log = run_on(&mut interpreter, "x = x + 1; print twice(x);");
    assert_eq!(log.printed, vec!["4"]);
}

#[test]
fn redeclaration_overwrites() {
    assert_eq!(run("var x = 1; var x = 2; print x;"), vec!["2"]);
}

#[test]
fn finished_machine_stays_finished() {
    let mut interpreter = Interpreter::new();
    assert!(matches!(interpreter.step(Event::Nothing), Action::Finished));
    assert!(matches!(interpreter.step(Event::Number(1)), Action::Finished));
    assert!(interpreter.take_value().is_none());
}

#[test]
fn proceed_steps_until_the_driver_is_needed() {
    let mut interpreter = Interpreter::new();
    let tokens = scan("var x = 1; { var y = x; } print 2 * 3; print 4;");
    interpreter.interpreter(Parser::new(&tokens).parse().expect("parse"));
    match interpreter.proceed(Event::Nothing, 1000) {
        Action::Arithmetic { operator, left, right } => {
            assert_eq!(operator, TokenType::Star);
            assert_eq!(left, 2.0f64.to_bits());
            assert_eq!(right, 3.0f64.to_bits());
        }
        other => panic!("no arithmetic: {:?}", other),
    }
    match interpreter.proceed(Event::Number(6.0f64.to_bits()), 1000) {
        Action::Print(Printed::Number(bits)) => assert_eq!(bits, 6.0f64.to_bits()),
        other => panic!("no print: {:?}", other),
    }
    match interpreter.proceed(Event::Nothing, 1000) {
        Action::Print(Printed::Number(bits)) => assert_eq!(bits, 4.0f64.to_bits()),
        other => panic!("no print: {:?}", other),
    }
    assert!(matches!(interpreter.proceed(Event::Nothing, 1000), Action::Finished));
}

#[test]
fn proceed_stops_at_its_limit() {
    let mut interpreter = Interpreter::new();
    let tokens = scan("while (true) {}");
    interpreter.interpreter(Parser::new(&tokens).parse().expect("parse"));
    assert!(matches!(interpreter.proceed(Event::Nothing, 0), Action::Continue));
    assert!(matches!(interpreter.proceed(Event::Nothing, 5000), Action::Continue));
    assert!(interpreter.is_busy());
}

#[test]
fn execute_takes_up_one_statement() {
    let mut interpreter = Interpreter::new();
    let tokens = scan("{ var a = 1; print a; }");
    let mut statements = Parser::new(&tokens).parse().expect("parse");
    let block = Rc::new(statements.pop().unwrap());
    assert!(matches!(interpreter.execute(&block), Action::Continue));
    // the block has its own scope
    assert_ne!(interpreter.environment(), interpreter.globals());
    let log = drive(&mut interpreter);
    assert_eq!(log.printed, vec!["1"]);
    assert_eq!(interpreter.environment(), interpreter.globals());
}

#[test]
fn abandon_drops_what_is_left() {
    let mut interpreter = Interpreter::new();
    let tokens = scan("var x = 1; while (true) { x = 2; } print x;");
    interpreter.interpreter(Parser::new(&tokens).parse().expect("parse"));
    assert!(matches!(interpreter.proceed(Event::Nothing, 1000), Action::Continue));
    assert!(interpreter.is_busy());
    interpreter.abandon();
    assert!(!interpreter.is_busy());
    assert_eq!(interpreter.environment(), interpreter.globals());
    assert!(matches!(interpreter.step(Event::Nothing), Action::Finished));
    // what the program did before is done
    let log = run_on(&mut interpreter, "print x;");
    assert_eq!(log.printed, vec!["2"]);
}

#[test]
fn taking_a_value_away_starves_a_frame() {
    let mut interpreter = Interpreter::new();
    let tokens = scan("print 1; print 2;");
    interpreter.interpreter(Parser::new(&tokens).parse().expect("parse"));
    // up to the frame that prints, which would find its value
    let mut steps = 0;
    while interpreter.take_value().is_none() {
        assert!(matches!(interpreter.step(Event::Nothing), Action::Continue));
        steps += 1;
        assert!(steps < 10);
    }
    // the value has been taken from under it
    match interpreter.step(Event::Nothing) {
        Action::Report(LoxResult::SystemError { message }) => {
            assert_eq!(message, "value stack exhausted")
        }
        other => panic!("no system error: {:?}", other),
    }
    assert!(!interpreter.is_busy());
}

/// The statements of the block that a source consists of.
fn block_of(source: &str) -> Rc<Vec<Rc<lox_ast::stmt::Stmt>>> {
    let tokens = scan(source);
    let mut statements = Parser::new(&tokens).parse().expect("parse");
    assert_eq!(statements.len(), 1);
    match statements.pop().unwrap() {
        lox_ast::stmt::Stmt::Block(block) => block.statements,
        other => panic!("no block: {:?}", other),
    }
}

/// The function that a source declares, with scope `closure` as its
/// closure.
fn function_of(source: &str, closure: usize) -> lox_ast::value::lox_function::LoxFunction {
    let tokens = scan(source);
    let mut statements = Parser::new(&tokens).parse().expect("parse");
    assert_eq!(statements.len(), 1);
    match statements.pop().unwrap() {
        lox_ast::stmt::Stmt::Function(declaration) => {
            lox_ast::value::lox_function::LoxFunction::new(&declaration, closure)
        }
        other => panic!("no function: {:?}", other),
    }
}

#[test]
fn execute_block_without_statements_leads_back() {
    let mut interpreter = Interpreter::new();
    // a second scope, which binds `a`
    run_on(&mut interpreter, "{ var a = 1; }");
    assert_eq!(interpreter.scopes(), 2);
    assert_eq!(interpreter.environment(), interpreter.globals());
    let nothing = Rc::new(Vec::new());
    assert!(matches!(interpreter.execute_block(&nothing, 1), Action::Continue));
    assert_eq!(interpreter.environment(), 1);
    // the next step leaves the block
    assert!(matches!(interpreter.step(Event::Nothing), Action::Continue));
    assert_eq!(interpreter.environment(), interpreter.globals());
    assert!(matches!(interpreter.step(Event::Nothing), Action::Finished));
    assert_eq!(interpreter.environment(), interpreter.globals());
}

#[test]
fn execute_block_runs_in_the_given_scope_and_leads_back() {
    let mut interpreter = Interpreter::new();
    run_on(&mut interpreter, "var a = 0; { var a = 1; }");
    let statements = block_of("{ print a; a = 2; var b = 3; print a; }");
    interpreter.execute_block(&statements, 1);
    let log = drive(&mut interpreter);
    assert_eq!(log.printed, vec!["1", "2"]);
    assert_eq!(interpreter.environment(), interpreter.globals());
    // the global `a` was not touched, and `b` is not in the globals
    let log = run_on(&mut interpreter, "print a;");
    assert_eq!(log.printed, vec!["0"]);
    let log = run_on(&mut interpreter, "print b;");
    assert_eq!(log.reported.len(), 1);
}

#[test]
fn execute_block_leads_back_on_every_way_out() {
    for source in [
        "{ print 1; break; print 2; }",
        "{ print 1; return 5; print 2; }",
        "{ print 1; print nil + 1; print 2; }",
        "{ { { print 1; break; } } print 2; }",
    ] {
        let mut interpreter = Interpreter::new();
        run_on(&mut interpreter, "{ var a = 1; }");
        let statements = block_of(source);
        interpreter.execute_block(&statements, 1);
        assert_eq!(interpreter.environment(), 1);
        let log = drive(&mut interpreter);
        assert_eq!(log.printed, vec!["1"], "{}", source);
        assert_eq!(interpreter.environment(), interpreter.globals(), "{}", source);
        assert!(!interpreter.is_busy());
    }
}

#[test]
fn execute_block_inside_a_loop_leads_back_on_break() {
    // the block is taken up from scope 1 while a loop stands below it
    let mut interpreter = Interpreter::new();
    run_on(&mut interpreter, "{ var inner = 1; } { var other = 2; }");
    assert_eq!(interpreter.scopes(), 3);
    let tokens = scan("while (true) { break; } print 7;");
    interpreter.interpreter(Parser::new(&tokens).parse().expect("parse"));
    let statements = block_of("{ print other; }");
    interpreter.execute_block(&statements, 2);
    let log = drive(&mut interpreter);
    assert_eq!(log.printed, vec!["2", "7"]);
    assert_eq!(interpreter.environment(), interpreter.globals());
}

#[test]
fn function_call_returns_through_blocks() {
    let mut interpreter = Interpreter::new();
    let function = function_of("func f(a) { { { return a; } } print 0; }", 0);
    assert_eq!(function.arity(), 1);
    assert!(matches!(function.call(&mut interpreter, vec![number(5.0)]), Action::Continue));
    let log = drive(&mut interpreter);
    assert!(log.printed.is_empty());
    assert!(log.reported.is_empty());
    assert_eq!(interpreter.take_value(), Some(number(5.0)));
    assert_eq!(interpreter.take_value(), None);
    assert_eq!(interpreter.environment(), interpreter.globals());
}

#[test]
fn function_call_without_return_gives_nil() {
    let mut interpreter = Interpreter::new();
    let function = function_of("func f(a, b) { print a; { print b; } }", 0);
    function.call(&mut interpreter, vec![number(1.0), number(2.0)]);
    let log = drive(&mut interpreter);
    assert_eq!(log.printed, vec!["1", "2"]);
    assert_eq!(interpreter.take_value(), Some(Object::Nil));
    assert_eq!(interpreter.environment(), interpreter.globals());
}

#[test]
fn function_call_runs_inside_its_closure() {
    let mut interpreter = Interpreter::new();
    // scope 1 binds `x` to 1 and has been left; scope 2 binds `x` to 2
    run_on(&mut interpreter, "var x = 0; { var x = 1; } { var x = 2; }");
    assert_eq!(interpreter.scopes(), 3);
    let function = function_of("func f(y) { x = x + y; return x; }", 1);
    // called from scope 2
    let nothing = Rc::new(Vec::new());
    interpreter.execute_block(&nothing, 2);
    assert_eq!(interpreter.environment(), 2);
    function.call(&mut interpreter, vec![number(10.0)]);
    // the body runs in a new scope
    assert_eq!(interpreter.scopes(), 4);
    assert_eq!(interpreter.environment(), 3);
    let mut action = interpreter.step(Event::Nothing);
    let mut steps = 0;
    while interpreter.environment() != 2 {
        if let Action::Arithmetic { operator, left, right } = action {
            action = interpreter.step(Event::Number(arithmetic(operator, left, right)));
        } else {
            action = interpreter.step(Event::Nothing);
        }
        steps += 1;
        assert!(steps < 100);
    }
    // back in the caller's scope, with the value 1 + 10
    assert_eq!(interpreter.take_value(), Some(number(11.0)));
    drive(&mut interpreter);
    assert_eq!(interpreter.environment(), interpreter.globals());
    // the closure's `x` was changed, the others were not
    let show = block_of("{ print x; }");
    interpreter.execute_block(&show, 1);
    assert_eq!(drive(&mut interpreter).printed, vec!["11"]);
    interpreter.execute_block(&show, 2);
    assert_eq!(drive(&mut interpreter).printed, vec!["2"]);
    assert_eq!(run_on(&mut interpreter, "print x;").printed, vec!["0"]);
}
