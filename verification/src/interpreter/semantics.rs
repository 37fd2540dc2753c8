//! What each frame does: the step function of the machine.
use vstd::prelude::*;
use std::rc::Rc;
use crate::environment::assigned;
use crate::environment::defined;
use crate::environment::fresh_scope;
use crate::environment::lookup;
use crate::environment::resolve;
use crate::environment::undefined_variable;
use crate::environment::ScopeView;
use crate::expr::Expr;
use crate::interpreter::machine::drop_value;
use crate::interpreter::machine::exhausted;
use crate::interpreter::machine::next;
use crate::interpreter::machine::push_frame;
use crate::interpreter::machine::push_value;
use crate::interpreter::machine::raise;
use crate::interpreter::machine::runtime_error;
use crate::interpreter::machine::system_error;
use crate::interpreter::machine::ActionView;
use crate::interpreter::machine::Awaiting;
use crate::interpreter::machine::Event;
use crate::interpreter::machine::Frame;
use crate::interpreter::machine::Machine;
use crate::interpreter::machine::PrintedView;
use crate::interpreter::machine::Signal;
use crate::interpreter::machine::Turn;
use crate::stmt::Stmt;
use crate::text::decimal;
use crate::token::Token;
use crate::token_type::TokenType;
use crate::value::callable::Callable;
use crate::value::callable::LoxCallable;
use crate::value::lox_function::LoxFunction;
use crate::value::object::number_equal;
use crate::value::object::number_less;
use crate::value::object::number_negated;
use crate::value::object::truth;
use crate::value::object::truthy;
use crate::value::object::Object;

verus! {

/// The frames with one `Evaluate` for each of `exprs` from `at` on put on
/// them, that of `exprs[at]` on top: the expressions are evaluated in
/// their order.
pub open spec fn queue(frames: Seq<Frame>, exprs: Seq<Rc<Expr>>, at: nat) -> Seq<Frame>
    decreases exprs.len() - at,
{
    if at >= exprs.len() {
        frames
    } else {
        queue(frames, exprs, at + 1).push(Frame::Evaluate(exprs[at as int]))
    }
}

/// The frames with one `Execute` for each of `stmts` from `at` on put on
/// them, that of `stmts[at]` on top: the statements run in their order.
pub open spec fn schedule(frames: Seq<Frame>, stmts: Seq<Rc<Stmt>>, at: nat) -> Seq<Frame>
    decreases stmts.len() - at,
{
    if at >= stmts.len() {
        frames
    } else {
        schedule(frames, stmts, at + 1).push(Frame::Execute(stmts[at as int]))
    }
}

/// The machine that has taken up a block: its statements are to run in
/// scope `environment`, in their order, above a frame that leads back to
/// the scope that was current. So that scope is current again when the
/// block is left, however it is left: at its end, or by a signal that
/// unwinds its frames.
pub open spec fn enter_block(m: Machine, statements: Seq<Rc<Stmt>>, environment: usize) -> Machine {
    Machine {
        frames: schedule(
            m.frames.push(Frame::Leave { environment: m.environment }),
            statements,
            0,
        ),
        environment,
        ..m
    }
}

/// An expression whose turn it is: a literal and a variable give their
/// value; every other expression puts frames for its parts, then one for
/// what is done with their values.
pub open spec fn evaluate(m: Machine, expr: Expr) -> Turn {
    match expr {
        Expr::Literal(e) => next(push_value(m, e.value)),
        Expr::Grouping(e) => next(push_frame(m, Frame::Evaluate(e.expression))),
        Expr::Variable(e) => match lookup(m.scopes, m.environment as nat, e.name.lexeme@) {
            Some(value) => next(push_value(m, value)),
            None => raise(m, Signal::Error(undefined_variable(e.name@))),
        },
        Expr::Assign(e) => next(
            Machine {
                frames: m.frames.push(Frame::Assign(e.name)).push(Frame::Evaluate(e.value)),
                ..m
            },
        ),
        Expr::Unary(e) => next(
            Machine {
                frames: m.frames.push(Frame::Unary(e.operator)).push(Frame::Evaluate(e.right)),
                ..m
            },
        ),
        Expr::Binary(e) => next(
            Machine {
                frames: m.frames.push(Frame::Binary(e.operator)).push(
                    Frame::Evaluate(e.right),
                ).push(Frame::Evaluate(e.left)),
                ..m
            },
        ),
        Expr::Logical(e) => next(
            Machine {
                frames: m.frames.push(Frame::Logical { operator: e.operator, right: e.right }).push(
                    Frame::Evaluate(e.left),
                ),
                ..m
            },
        ),
        Expr::Call(e) => next(
            Machine {
                frames: m.frames.push(
                    Frame::Invoke { paren: e.paren, count: e.arguments@.len() as usize },
                ).push(Frame::Callee { call: Rc::new(expr) }).push(Frame::Evaluate(e.callee)),
                ..m
            },
        ),
    }
}

/// The callee of a call has its value, which is on top: it must be a
/// function, else the arguments are not evaluated; if it is, they are,
/// in their order.
pub open spec fn callee(m: Machine, call: Expr) -> Turn {
    if m.values.len() == 0 {
        raise(m, exhausted())
    } else {
        match call {
            Expr::Call(e) => match m.values.last() {
                Object::Func(callable) => next(
                    Machine { frames: queue(m.frames, e.arguments@, 0), ..m },
                ),
                _ => raise(m, runtime_error(e.paren, "can only call functions"@)),
            },
            _ => next(m),
        }
    }
}

/// What a unary operator makes of a value: `-` negates a number and
/// refuses everything else; `!` gives the opposite of the truthiness.
pub open spec fn unary_value(operator: Token, right: Object) -> Result<Object, Signal> {
    if operator.tk_type == TokenType::Minus {
        match right {
            Object::Number(bits) => Ok(Object::Number(number_negated(bits))),
            _ => Err(runtime_error(operator, "invalid number"@)),
        }
    } else if operator.tk_type == TokenType::Bang {
        Ok(truth(!truthy(right@)))
    } else {
        Err(runtime_error(operator, "invalid expression"@))
    }
}

/// The top value gives way to what the operator makes of it.
pub open spec fn unary(m: Machine, operator: Token) -> Turn {
    if m.values.len() == 0 {
        raise(m, exhausted())
    } else {
        match unary_value(operator, m.values.last()) {
            Ok(value) => next(push_value(drop_value(m), value)),
            Err(signal) => raise(drop_value(m), signal),
        }
    }
}

/// The four operators whose result on two numbers is a number.
pub open spec fn is_arithmetic(kind: TokenType) -> bool {
    kind == TokenType::Minus || kind == TokenType::Plus || kind == TokenType::Star || kind
        == TokenType::Slash
}

/// What a comparison operator says of two numbers, as IEEE-754 orders
/// them; `None` for another operator.
pub open spec fn compared(left: u64, right: u64, kind: TokenType) -> Option<bool> {
    if kind == TokenType::BangEqual {
        Some(!number_equal(left, right))
    } else if kind == TokenType::EqualEqual {
        Some(number_equal(left, right))
    } else if kind == TokenType::Greater {
        Some(number_less(right, left))
    } else if kind == TokenType::GreaterEqual {
        Some(number_less(right, left) || number_equal(left, right))
    } else if kind == TokenType::Less {
        Some(number_less(left, right))
    } else if kind == TokenType::LessEqual {
        Some(number_less(left, right) || number_equal(left, right))
    } else {
        None
    }
}

/// A binary operator and its two operands. On two numbers a comparison
/// is decided here, and an arithmetic operation is handed to the driver,
/// whose answer becomes the value. `nil == nil` is true. All else is an
/// error at the operator.
pub open spec fn binary_values(m: Machine, operator: Token, left: Object, right: Object) -> Turn {
    match (left, right) {
        (Object::Number(l), Object::Number(r)) => {
            if is_arithmetic(operator.tk_type) {
                Turn {
                    machine: Machine { awaiting: Awaiting::Number, ..m },
                    action: ActionView::Arithmetic {
                        operator: operator.tk_type,
                        left: l,
                        right: r,
                    },
                }
            } else {
                match compared(l, r, operator.tk_type) {
                    Some(flag) => next(push_value(m, truth(flag))),
                    None => raise(m, runtime_error(operator, "invalid operator"@)),
                }
            }
        },
        (Object::Nil, Object::Nil) => {
            if operator.tk_type == TokenType::EqualEqual {
                next(push_value(m, Object::True))
            } else {
                raise(m, runtime_error(operator, "interpreter error invalid number"@))
            }
        },
        _ => raise(m, runtime_error(operator, "interpreter error invalid number"@)),
    }
}

/// The two top values, the right operand on top, give way to what the
/// operator makes of them.
pub open spec fn binary(m: Machine, operator: Token) -> Turn {
    if m.values.len() < 2 {
        raise(m, exhausted())
    } else {
        binary_values(
            drop_value(drop_value(m)),
            operator,
            m.values[m.values.len() - 2],
            m.values.last(),
        )
    }
}

/// Whether the left operand decides a logical expression: a truthy one
/// decides `or`, a falsy one decides `and`.
pub open spec fn short_circuits(operator: Token, left: Object) -> bool {
    (operator.tk_type == TokenType::Or && truthy(left@)) || (operator.tk_type == TokenType::And
        && !truthy(left@))
}

/// The left operand stays as the value where it decides; else it gives
/// way to the right operand, which is evaluated only then.
pub open spec fn logical(m: Machine, operator: Token, right: Rc<Expr>) -> Turn {
    if m.values.len() == 0 {
        raise(m, exhausted())
    } else if short_circuits(operator, m.values.last()) {
        next(m)
    } else {
        next(push_frame(drop_value(m), Frame::Evaluate(right)))
    }
}

/// The top value is assigned and stays as the value of the assignment.
pub open spec fn assign(m: Machine, name: Token) -> Turn {
    if m.values.len() == 0 {
        raise(m, exhausted())
    } else {
        match resolve(m.scopes, m.environment as nat, name.lexeme@) {
            Some(_) => next(
                Machine {
                    scopes: assigned(
                        m.scopes,
                        m.environment as nat,
                        name.lexeme@,
                        m.values.last(),
                    ),
                    ..m
                },
            ),
            None => raise(m, Signal::Error(undefined_variable(name@))),
        }
    }
}

/// The scopes after the first `n` parameters were bound to the first `n`
/// arguments in scope `scope`.
pub open spec fn bound(
    scopes: Seq<ScopeView>,
    scope: nat,
    params: Seq<Token>,
    arguments: Seq<Object>,
    n: nat,
) -> Seq<ScopeView>
    decreases n,
{
    if n == 0 {
        scopes
    } else {
        defined(
            bound(scopes, scope, params, arguments, (n - 1) as nat),
            scope,
            params[n - 1].lexeme@,
            arguments[n - 1],
        )
    }
}

/// The message of a call with the wrong number of arguments.
pub open spec fn arity_message(expected: nat, given: nat) -> Seq<char> {
    "expected "@ + decimal(expected) + " arguments but got "@ + decimal(given)
}

/// The error of a machine with more values than it can count.
pub open spec fn overflow() -> Signal {
    system_error("value stack overflow"@)
}

/// A call of a declared function: a new scope inside the function's
/// closure binds the parameters to the arguments, and the body runs in
/// it as a block, above a boundary that holds the values of the caller
/// and leads back to the caller's scope.
pub open spec fn call_function(
    m: Machine,
    params: Seq<Token>,
    body: Seq<Rc<Stmt>>,
    closure: usize,
    arguments: Seq<Object>,
) -> Turn {
    let scope = m.scopes.len();
    if m.values.len() > usize::MAX {
        raise(m, overflow())
    } else {
        next(
            enter_block(
                Machine {
                    scopes: bound(
                        m.scopes.push(fresh_scope(Some(closure))),
                        scope,
                        params,
                        arguments,
                        arguments.len(),
                    ),
                    frames: m.frames.push(
                        Frame::Boundary {
                            environment: m.environment,
                            height: m.values.len() as usize,
                        },
                    ),
                    ..m
                },
                body,
                scope as usize,
            ),
        )
    }
}

/// A call whose callee and arguments have been taken from the values. The
/// callee must be a function and the number of arguments its arity, else
/// nothing of the function is run. A native function is handed to the
/// driver, whose answer becomes the value of the call.
pub open spec fn call_value(m: Machine, paren: Token, callee: Object, arguments: Seq<Object>) -> Turn {
    match callee {
        Object::Func(callable) => {
            if callable.func >= m.callables.len() {
                raise(m, runtime_error(paren, "can only call functions"@))
            } else if m.callables[callable.func as int].spec_arity() != arguments.len() {
                raise(
                    m,
                    runtime_error(
                        paren,
                        arity_message(
                            m.callables[callable.func as int].spec_arity(),
                            arguments.len(),
                        ),
                    ),
                )
            } else {
                match m.callables[callable.func as int] {
                    Callable::Function(function) => call_function(
                        m,
                        function.params@,
                        function.body@,
                        function.closure,
                        arguments,
                    ),
                    Callable::Native(native) => Turn {
                        machine: Machine { awaiting: Awaiting::Value, ..m },
                        action: ActionView::Native { name: native.name@, arguments },
                    },
                }
            }
        },
        _ => raise(m, runtime_error(paren, "can only call functions"@)),
    }
}

/// The callee and `count` arguments, the last on top, give way to the
/// call.
pub open spec fn invoke(m: Machine, paren: Token, count: usize) -> Turn {
    if m.values.len() <= count {
        raise(m, exhausted())
    } else {
        let base = m.values.len() - count - 1;
        call_value(
            Machine { values: m.values.take(base), ..m },
            paren,
            m.values[base],
            m.values.subrange(base + 1, m.values.len() as int),
        )
    }
}

/// How a value is printed: a number is left to the driver; a string
/// shows as it is, a function by its name.
pub open spec fn printed(value: Object, callables: Seq<Callable>) -> PrintedView {
    match value {
        Object::Number(bits) => PrintedView::Number(bits),
        Object::Str(text) => PrintedView::Text(text@),
        Object::Nil => PrintedView::Text("nil"@),
        Object::True => PrintedView::Text("true"@),
        Object::False => PrintedView::Text("false"@),
        Object::Func(callable) => {
            if callable.func < callables.len() {
                PrintedView::Text(callables[callable.func as int].text())
            } else {
                PrintedView::Text("<Func>"@)
            }
        },
    }
}

/// A statement whose turn it is.
pub open spec fn execute(m: Machine, stmt: Stmt) -> Turn {
    match stmt {
        Stmt::Expression(s) => next(
            Machine { frames: m.frames.push(Frame::Discard).push(Frame::Evaluate(s.expression)), ..m },
        ),
        Stmt::Print(s) => next(
            Machine { frames: m.frames.push(Frame::Print).push(Frame::Evaluate(s.expression)), ..m },
        ),
        Stmt::Var(s) => match s.initializer {
            Some(initializer) => next(
                Machine {
                    frames: m.frames.push(Frame::Define(s.name)).push(Frame::Evaluate(initializer)),
                    ..m
                },
            ),
            None => next(
                Machine {
                    scopes: defined(m.scopes, m.environment as nat, s.name.lexeme@, Object::Nil),
                    ..m
                },
            ),
        },
        Stmt::Block(s) => next(
            enter_block(
                Machine { scopes: m.scopes.push(fresh_scope(Some(m.environment))), ..m },
                s.statements@,
                m.scopes.len() as usize,
            ),
        ),
        Stmt::If(s) => next(
            Machine {
                frames: m.frames.push(
                    Frame::Branch { then_branch: s.then_branch, else_branch: s.else_branch },
                ).push(Frame::Evaluate(s.condition)),
                ..m
            },
        ),
        Stmt::While(s) => next(
            Machine {
                frames: m.frames.push(Frame::Test { condition: s.condition, body: s.body }).push(
                    Frame::Evaluate(s.condition),
                ),
                ..m
            },
        ),
        Stmt::Break(s) => raise(m, Signal::Break),
        Stmt::Function(s) => next(
            Machine {
                callables: m.callables.push(
                    Callable::Function(
                        LoxFunction {
                            name: s.name,
                            params: s.params,
                            body: s.body,
                            closure: m.environment,
                        },
                    ),
                ),
                scopes: defined(
                    m.scopes,
                    m.environment as nat,
                    s.name.lexeme@,
                    Object::Func(LoxCallable { func: m.callables.len() as usize }),
                ),
                ..m
            },
        ),
        Stmt::Return(s) => match s.value {
            Some(value) => next(
                Machine { frames: m.frames.push(Frame::Return).push(Frame::Evaluate(value)), ..m },
            ),
            None => raise(m, Signal::Return(Object::Nil)),
        },
    }
}

/// A frame that uses up the top value.
pub open spec fn consume_value(m: Machine, frame: Frame) -> Turn {
    let value = m.values.last();
    let rest = drop_value(m);
    match frame {
        Frame::Discard => next(rest),
        Frame::Print => Turn { machine: rest, action: ActionView::Print(printed(value, m.callables)) },
        Frame::Define(name) => next(
            Machine {
                scopes: defined(m.scopes, m.environment as nat, name.lexeme@, value),
                ..rest
            },
        ),
        Frame::Branch { then_branch, else_branch } => {
            if truthy(value@) {
                next(push_frame(rest, Frame::Execute(then_branch)))
            } else {
                match else_branch {
                    Some(branch) => next(push_frame(rest, Frame::Execute(branch))),
                    None => next(rest),
                }
            }
        },
        Frame::Test { condition, body } => {
            if !truthy(value@) {
                next(rest)
            } else if rest.values.len() > usize::MAX {
                raise(rest, overflow())
            } else {
                next(
                    Machine {
                        frames: m.frames.push(
                            Frame::Loop { condition, body, height: rest.values.len() as usize },
                        ).push(Frame::Execute(body)),
                        ..rest
                    },
                )
            }
        },
        Frame::Return => raise(rest, Signal::Return(value)),
        _ => next(m),
    }
}

/// Whether a frame uses up the top value.
pub open spec fn consumes_value(frame: Frame) -> bool {
    frame is Discard || frame is Print || frame is Define || frame is Branch || frame is Test
        || frame is Return
}

/// What the frame taken from the top does to the machine below it.
pub open spec fn run(m: Machine, frame: Frame) -> Turn {
    match frame {
        Frame::Program => next(m),
        Frame::Statement => next(m),
        Frame::Execute(stmt) => execute(m, *stmt),
        Frame::Evaluate(expr) => evaluate(m, *expr),
        Frame::Leave { environment } => next(Machine { environment, ..m }),
        Frame::Loop { condition, body, height } => next(
            Machine {
                frames: m.frames.push(Frame::Test { condition, body }).push(
                    Frame::Evaluate(condition),
                ),
                ..m
            },
        ),
        Frame::Boundary { environment, height } => next(
            push_value(Machine { environment, ..m }, Object::Nil),
        ),
        Frame::Unary(operator) => unary(m, operator),
        Frame::Binary(operator) => binary(m, operator),
        Frame::Logical { operator, right } => logical(m, operator, right),
        Frame::Assign(name) => assign(m, name),
        Frame::Callee { call } => callee(m, *call),
        Frame::Invoke { paren, count } => invoke(m, paren, count),
        consumer => {
            if m.values.len() == 0 {
                raise(m, exhausted())
            } else {
                consume_value(m, consumer)
            }
        },
    }
}

/// The answer of the driver to what the machine asked: the result of an
/// arithmetic operation or of a native function becomes the value; a
/// failure of the native function, or an answer that was not asked for,
/// is a system error.
pub open spec fn absorb(m: Machine, event: Event) -> Turn {
    let ready = Machine { awaiting: Awaiting::Nothing, ..m };
    match (m.awaiting, event) {
        (Awaiting::Number, Event::Number(bits)) => next(push_value(ready, Object::Number(bits))),
        (Awaiting::Value, Event::Value(value)) => next(push_value(ready, value)),
        (Awaiting::Value, Event::Failure(message)) => raise(ready, system_error(message@)),
        _ => raise(ready, system_error("unexpected answer"@)),
    }
}

/// One step. A machine that waits takes the driver's answer; else the top
/// frame is taken and run; with no frame left the machine has finished.
pub open spec fn step(m: Machine, event: Event) -> Turn {
    if m.awaiting != Awaiting::Nothing {
        absorb(m, event)
    } else if m.frames.len() == 0 {
        Turn { machine: m, action: ActionView::Finished }
    } else {
        run(Machine { frames: m.frames.drop_last(), ..m }, m.frames.last())
    }
}

/// What follows a step that asked for nothing, with up to `limit` steps
/// to go.
pub open spec fn proceed_after(m: Machine, limit: nat) -> Turn
    decreases limit, 0nat,
{
    if limit > 0 {
        proceed(m, Event::Nothing, (limit - 1) as nat)
    } else {
        Turn { machine: m, action: ActionView::Continue }
    }
}

/// Steps until the driver is needed: one step, and as long as steps ask
/// for nothing, up to `limit` more.
pub open spec fn proceed(m: Machine, event: Event, limit: nat) -> Turn
    decreases limit, 1nat,
{
    let turn = step(m, event);
    if turn.action is Continue {
        proceed_after(turn.machine, limit)
    } else {
        turn
    }
}

/// The frames with the statements of a program from `at` on put on them,
/// each above its boundary, that of `statements[at]` on top.
pub open spec fn listed(frames: Seq<Frame>, statements: Seq<Stmt>, at: nat) -> Seq<Frame>
    decreases statements.len() - at,
{
    if at >= statements.len() {
        frames
    } else {
        listed(frames, statements, at + 1).push(Frame::Statement).push(
            Frame::Execute(Rc::new(statements[at as int])),
        )
    }
}

/// The frames with a program put on them: its boundary, and above it the
/// statements, the first on top.
pub open spec fn loaded(frames: Seq<Frame>, statements: Seq<Stmt>) -> Seq<Frame> {
    listed(frames.push(Frame::Program), statements, 0)
}

} // verus!
