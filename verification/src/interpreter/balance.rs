//! The discipline of the two stacks: every frame finds the values it
//! needs, in every state that the machine reaches by itself.
use vstd::prelude::*;
use std::rc::Rc;
use crate::expr::Expr;
use crate::interpreter::machine::cut;
use crate::interpreter::machine::raise;
use crate::interpreter::machine::unwind;
use crate::interpreter::machine::Awaiting;
use crate::interpreter::machine::Frame;
use crate::interpreter::machine::Machine;
use crate::interpreter::machine::Signal;
use crate::environment::undefined_variable;
use crate::interpreter::machine::drop_value;
use crate::interpreter::machine::exhausted;
use crate::interpreter::machine::runtime_error;
use crate::interpreter::machine::system_error;
use crate::interpreter::machine::Event;
use crate::interpreter::semantics::arity_message;
use crate::interpreter::semantics::call_value;
use crate::interpreter::semantics::consume_value;
use crate::interpreter::semantics::consumes_value;
use crate::interpreter::semantics::evaluate;
use crate::interpreter::semantics::execute;
use crate::interpreter::semantics::listed;
use crate::interpreter::semantics::loaded;
use crate::interpreter::semantics::overflow;
use crate::interpreter::semantics::queue;
use crate::interpreter::semantics::run;
use crate::interpreter::semantics::step;
use crate::interpreter::semantics::unary_value;
use crate::token::Token;
use crate::value::callable::Callable;
use crate::value::object::Object;
use crate::interpreter::semantics::schedule;
use crate::stmt::Stmt;

verus! {

/// How many values a frame takes from the top when it is run.
pub open spec fn need(frame: Frame) -> nat {
    match frame {
        Frame::Discard => 1,
        Frame::Print => 1,
        Frame::Define(_) => 1,
        Frame::Branch { then_branch, else_branch } => 1,
        Frame::Test { condition, body } => 1,
        Frame::Return => 1,
        Frame::Unary(_) => 1,
        Frame::Logical { operator, right } => 1,
        Frame::Assign(_) => 1,
        Frame::Binary(_) => 2,
        Frame::Callee { call } => 1,
        Frame::Invoke { paren, count } => count as nat + 1,
        _ => 0,
    }
}

/// By how much the number of values has changed when a frame, and all
/// that it puts in its place, has been run to the end.
pub open spec fn net(frame: Frame) -> int {
    match frame {
        Frame::Evaluate(_) => 1,
        Frame::Boundary { environment, height } => 1,
        Frame::Discard => -1,
        Frame::Print => -1,
        Frame::Define(_) => -1,
        Frame::Branch { then_branch, else_branch } => -1,
        Frame::Test { condition, body } => -1,
        Frame::Return => -1,
        Frame::Binary(_) => -1,
        Frame::Callee { call } => match *call {
            Expr::Call(e) => e.arguments@.len() as int,
            _ => 0,
        },
        Frame::Invoke { paren, count } => -(count as int),
        _ => 0,
    }
}

/// The number of values that the frames leave alone: those that were
/// there when the topmost loop, call, top-level statement or program
/// among them began.
pub open spec fn floor(frames: Seq<Frame>) -> nat
    decreases frames.len(),
{
    if frames.len() == 0 {
        0
    } else {
        match frames.last() {
            Frame::Program => 0,
            Frame::Statement => 0,
            Frame::Loop { condition, body, height } => height as nat,
            Frame::Boundary { environment, height } => height as nat,
            _ => floor(frames.drop_last()),
        }
    }
}

/// The frames fit `depth` values: run from the top, every frame finds
/// the values it needs above the floor of the frames below it, and where
/// the body of a loop, the body of a function, a top-level statement or
/// a program ends, the values are as many as there were when it began.
pub open spec fn balanced(frames: Seq<Frame>, depth: int) -> bool
    decreases frames.len(),
{
    if frames.len() == 0 {
        depth >= 0
    } else {
        let rest = frames.drop_last();
        match frames.last() {
            Frame::Program => depth == 0 && balanced(rest, 0),
            Frame::Statement => depth == 0 && balanced(rest, 0),
            Frame::Loop { condition, body, height } => depth == height && balanced(rest, depth),
            Frame::Boundary { environment, height } => depth == height && floor(rest) <= height
                && balanced(rest, depth + 1),
            frame => depth >= need(frame) + floor(rest) && balanced(rest, depth + net(frame)),
        }
    }
}

/// The number of values there are, counting the one that the driver is
/// to give.
pub open spec fn depth(m: Machine) -> int {
    m.values.len() + if m.awaiting == Awaiting::Nothing {
        0int
    } else {
        1int
    }
}

/// The stacks of the machine fit each other.
pub open spec fn in_balance(m: Machine) -> bool {
    balanced(m.frames, depth(m))
}

/// Balanced frames leave the values below their floor alone: there are
/// at least as many values as the floor.
pub proof fn lemma_above_floor(frames: Seq<Frame>, depth: int)
    requires
        balanced(frames, depth),
    ensures
        depth >= floor(frames),
    decreases frames.len(),
{
}

/// Frames that are put on balanced frames and take no value from below
/// their own: one frame whose need is above the floor.
pub proof fn lemma_balanced_push(frames: Seq<Frame>, frame: Frame, depth: int)
    requires
        !(frame is Program || frame is Statement || frame is Loop || frame is Boundary),
        depth >= need(frame) + floor(frames),
        balanced(frames, depth + net(frame)),
    ensures
        balanced(frames.push(frame), depth),
        floor(frames.push(frame)) == floor(frames),
{
    assert(frames.push(frame).drop_last() =~= frames);
}

/// Expressions that are queued for evaluation fit as many values fewer
/// as there are expressions.
pub proof fn lemma_balanced_queue(frames: Seq<Frame>, exprs: Seq<Rc<Expr>>, at: nat, depth: int)
    requires
        at <= exprs.len(),
        depth >= floor(frames),
        balanced(frames, depth + exprs.len() - at),
    ensures
        balanced(queue(frames, exprs, at), depth),
        floor(queue(frames, exprs, at)) == floor(frames),
    decreases exprs.len() - at,
{
    if at < exprs.len() {
        lemma_balanced_queue(frames, exprs, at + 1, depth + 1);
        lemma_balanced_push(queue(frames, exprs, at + 1), Frame::Evaluate(exprs[at as int]), depth);
    }
}

/// Statements that are scheduled fit the values that the frames below
/// fit.
pub proof fn lemma_balanced_schedule(frames: Seq<Frame>, stmts: Seq<Rc<Stmt>>, at: nat, depth: int)
    requires
        at <= stmts.len(),
        balanced(frames, depth),
    ensures
        balanced(schedule(frames, stmts, at), depth),
        floor(schedule(frames, stmts, at)) == floor(frames),
    decreases stmts.len() - at,
{
    lemma_above_floor(frames, depth);
    if at < stmts.len() {
        lemma_balanced_schedule(frames, stmts, at + 1, depth);
        lemma_balanced_push(
            schedule(frames, stmts, at + 1),
            Frame::Execute(stmts[at as int]),
            depth,
        );
    }
}

/// The frames stop `signal` well where there are `count` values: the
/// frame that stops the signal leaves frames that fit the values it
/// leaves, which are those that were there when the loop or the call
/// began, with the returned value on top of them for a call, and none for
/// a top-level statement or a program.
pub open spec fn lands(frames: Seq<Frame>, count: int, signal: Signal) -> bool
    decreases frames.len(),
{
    if frames.len() == 0 {
        true
    } else {
        let rest = frames.drop_last();
        match frames.last() {
            Frame::Program => balanced(rest, 0),
            Frame::Statement => {
                if signal is Error {
                    lands(rest, count, signal)
                } else {
                    balanced(rest, 0)
                }
            },
            Frame::Loop { condition, body, height } => {
                if signal is Break {
                    count >= height && balanced(rest, height as int)
                } else {
                    lands(rest, count, signal)
                }
            },
            Frame::Boundary { environment, height } => {
                if signal is Return {
                    count >= height && balanced(rest, height + 1)
                } else {
                    lands(rest, count, signal)
                }
            },
            _ => lands(rest, count, signal),
        }
    }
}

/// Balanced frames stop every signal well, as long as the values above
/// their floor only have been taken.
pub proof fn lemma_lands(frames: Seq<Frame>, depth: int, count: int, signal: Signal)
    requires
        balanced(frames, depth),
        signal is Error || count >= floor(frames),
    ensures
        lands(frames, count, signal),
    decreases frames.len(),
{
    if frames.len() > 0 {
        let rest = frames.drop_last();
        match frames.last() {
            Frame::Program => {},
            Frame::Statement => {
                lemma_above_floor(rest, 0);
                lemma_lands(rest, 0, count, signal);
            },
            Frame::Loop { condition, body, height } => {
                lemma_above_floor(rest, depth);
                lemma_lands(rest, depth, count, signal);
            },
            Frame::Boundary { environment, height } => {
                lemma_lands(rest, depth + 1, count, signal);
            },
            frame => {
                lemma_lands(rest, depth + net(frame), count, signal);
            },
        }
    }
}

/// A signal that the frames stop well leaves stacks that fit.
pub proof fn lemma_unwind_lands(m: Machine, signal: Signal)
    requires
        m.awaiting == Awaiting::Nothing,
        lands(m.frames, m.values.len() as int, signal),
    ensures
        in_balance(unwind(m, signal)),
    decreases m.frames.len(),
{
    if m.frames.len() > 0 {
        let rest = Machine { frames: m.frames.drop_last(), ..m };
        match m.frames.last() {
            Frame::Program => {},
            Frame::Statement => {
                if signal is Error {
                    lemma_unwind_lands(Machine { environment: 0, ..rest }, signal);
                }
            },
            Frame::Leave { environment } => {
                lemma_unwind_lands(Machine { environment, ..rest }, signal);
            },
            Frame::Boundary { environment, height } => {
                if signal is Return {
                    assert(cut(m.values, height).len() == height);
                } else {
                    lemma_unwind_lands(Machine { environment, ..rest }, signal);
                }
            },
            Frame::Loop { condition, body, height } => {
                if signal is Break {
                    assert(cut(m.values, height).len() == height);
                } else {
                    lemma_unwind_lands(rest, signal);
                }
            },
            _ => {
                lemma_unwind_lands(rest, signal);
            },
        }
    }
}

/// A signal that is raised over balanced frames leaves stacks that fit:
/// an error whatever the values are, `Break` and `Return` where no value
/// below the floor of the frames has been taken.
pub proof fn lemma_raise_balanced(m: Machine, signal: Signal, depth: int)
    requires
        balanced(m.frames, depth),
        signal is Error || m.values.len() >= floor(m.frames),
    ensures
        in_balance(raise(m, signal).machine),
{
    lemma_lands(m.frames, depth, m.values.len() as int, signal);
    lemma_unwind_lands(Machine { awaiting: Awaiting::Nothing, ..m }, signal);
}

/// The statement that a shared statement is.
pub open spec fn statement_of(stmt: Rc<Stmt>) -> Stmt {
    *stmt
}

/// The expression that a shared expression is.
pub open spec fn expression_of(expr: Rc<Expr>) -> Expr {
    *expr
}

/// An expression that is taken up leaves stacks that fit the frames
/// below once it has its value.
pub proof fn lemma_evaluate_balanced(m: Machine, expr: Expr)
    requires
        m.awaiting == Awaiting::Nothing,
        m.values.len() >= floor(m.frames),
        balanced(m.frames, m.values.len() as int + 1),
    ensures
        in_balance(evaluate(m, expr).machine),
{
    let d = m.values.len() as int;
    let below = m.frames;
    match expr {
        Expr::Literal(e) => {},
        Expr::Grouping(e) => {
            lemma_balanced_push(below, Frame::Evaluate(e.expression), d);
        },
        Expr::Variable(e) => {
            lemma_raise_balanced(m, Signal::Error(undefined_variable(e.name@)), d + 1);
        },
        Expr::Assign(e) => {
            lemma_balanced_push(below, Frame::Assign(e.name), d + 1);
            lemma_balanced_push(below.push(Frame::Assign(e.name)), Frame::Evaluate(e.value), d);
        },
        Expr::Unary(e) => {
            lemma_balanced_push(below, Frame::Unary(e.operator), d + 1);
            lemma_balanced_push(below.push(Frame::Unary(e.operator)), Frame::Evaluate(e.right), d);
        },
        Expr::Binary(e) => {
            let first = below.push(Frame::Binary(e.operator));
            lemma_balanced_push(below, Frame::Binary(e.operator), d + 2);
            lemma_balanced_push(first, Frame::Evaluate(e.right), d + 1);
            lemma_balanced_push(first.push(Frame::Evaluate(e.right)), Frame::Evaluate(e.left), d);
        },
        Expr::Logical(e) => {
            let first = below.push(Frame::Logical { operator: e.operator, right: e.right });
            lemma_balanced_push(
                below,
                Frame::Logical { operator: e.operator, right: e.right },
                d + 1,
            );
            lemma_balanced_push(first, Frame::Evaluate(e.left), d);
        },
        Expr::Call(e) => {
            vstd::std_specs::vec::axiom_spec_len(&e.arguments);
            let count = e.arguments@.len();
            let invoke = Frame::Invoke { paren: e.paren, count: count as usize };
            let callee = Frame::Callee { call: Rc::new(expr) };
            lemma_balanced_push(below, invoke, d + 1 + count);
            lemma_balanced_push(below.push(invoke), callee, d + 1);
            lemma_balanced_push(below.push(invoke).push(callee), Frame::Evaluate(e.callee), d);
        },
    }
}

/// A statement that is taken up leaves stacks that fit.
pub proof fn lemma_execute_balanced(m: Machine, stmt: Stmt)
    requires
        m.awaiting == Awaiting::Nothing,
        balanced(m.frames, m.values.len() as int),
    ensures
        in_balance(execute(m, stmt).machine),
{
    let d = m.values.len() as int;
    let below = m.frames;
    lemma_above_floor(below, d);
    match stmt {
        Stmt::Expression(s) => {
            lemma_balanced_push(below, Frame::Discard, d + 1);
            lemma_balanced_push(below.push(Frame::Discard), Frame::Evaluate(s.expression), d);
        },
        Stmt::Print(s) => {
            lemma_balanced_push(below, Frame::Print, d + 1);
            lemma_balanced_push(below.push(Frame::Print), Frame::Evaluate(s.expression), d);
        },
        Stmt::Var(s) => {
            match s.initializer {
                Some(initializer) => {
                    lemma_balanced_push(below, Frame::Define(s.name), d + 1);
                    lemma_balanced_push(
                        below.push(Frame::Define(s.name)),
                        Frame::Evaluate(initializer),
                        d,
                    );
                },
                None => {},
            }
        },
        Stmt::Block(s) => {
            let leave = Frame::Leave { environment: m.environment };
            lemma_balanced_push(below, leave, d);
            lemma_balanced_schedule(below.push(leave), s.statements@, 0, d);
        },
        Stmt::If(s) => {
            let branch = Frame::Branch { then_branch: s.then_branch, else_branch: s.else_branch };
            lemma_balanced_push(below, branch, d + 1);
            lemma_balanced_push(below.push(branch), Frame::Evaluate(s.condition), d);
        },
        Stmt::While(s) => {
            let test = Frame::Test { condition: s.condition, body: s.body };
            lemma_balanced_push(below, test, d + 1);
            lemma_balanced_push(below.push(test), Frame::Evaluate(s.condition), d);
        },
        Stmt::Break(s) => {
            lemma_raise_balanced(m, Signal::Break, d);
        },
        Stmt::Function(s) => {},
        Stmt::Return(s) => {
            match s.value {
                Some(value) => {
                    lemma_balanced_push(below, Frame::Return, d + 1);
                    lemma_balanced_push(below.push(Frame::Return), Frame::Evaluate(value), d);
                },
                None => {
                    lemma_raise_balanced(m, Signal::Return(Object::Nil), d);
                },
            }
        },
    }
}

/// A frame that uses up the top value leaves stacks that fit.
pub proof fn lemma_consume_balanced(m: Machine, frame: Frame)
    requires
        m.awaiting == Awaiting::Nothing,
        consumes_value(frame),
        m.values.len() >= 1 + floor(m.frames),
        balanced(m.frames, m.values.len() - 1),
    ensures
        in_balance(consume_value(m, frame).machine),
{
    let d = m.values.len() - 1;
    let below = m.frames;
    let rest = drop_value(m);
    match frame {
        Frame::Branch { then_branch, else_branch } => {
            lemma_balanced_push(below, Frame::Execute(then_branch), d);
            match else_branch {
                Some(branch) => {
                    lemma_balanced_push(below, Frame::Execute(branch), d);
                },
                None => {},
            }
        },
        Frame::Test { condition, body } => {
            lemma_raise_balanced(rest, overflow(), d);
            let mark = Frame::Loop { condition, body, height: rest.values.len() as usize };
            if rest.values.len() <= usize::MAX {
                assert(below.push(mark).drop_last() =~= below);
                assert(balanced(below.push(mark), d));
                lemma_balanced_push(below.push(mark), Frame::Execute(body), d);
            }
        },
        Frame::Return => {
            lemma_raise_balanced(rest, Signal::Return(m.values.last()), d);
        },
        _ => {},
    }
}

/// A call leaves stacks that fit, whether it is refused, enters a
/// function or is handed to the driver.
pub proof fn lemma_call_balanced(m: Machine, paren: Token, callee: Object, arguments: Seq<Object>)
    requires
        m.awaiting == Awaiting::Nothing,
        m.values.len() >= floor(m.frames),
        balanced(m.frames, m.values.len() as int + 1),
    ensures
        in_balance(call_value(m, paren, callee, arguments).machine),
{
    let d = m.values.len() as int;
    match callee {
        Object::Func(callable) => {
            if callable.func >= m.callables.len() {
                lemma_raise_balanced(m, runtime_error(paren, "can only call functions"@), d + 1);
            } else if m.callables[callable.func as int].spec_arity() != arguments.len() {
                lemma_raise_balanced(
                    m,
                    runtime_error(
                        paren,
                        arity_message(
                            m.callables[callable.func as int].spec_arity(),
                            arguments.len(),
                        ),
                    ),
                    d + 1,
                );
            } else {
                match m.callables[callable.func as int] {
                    Callable::Function(function) => {
                        lemma_raise_balanced(m, overflow(), d + 1);
                        let mark = Frame::Boundary {
                            environment: m.environment,
                            height: m.values.len() as usize,
                        };
                        if m.values.len() <= usize::MAX {
                            let leave = Frame::Leave { environment: m.environment };
                            assert(m.frames.push(mark).drop_last() =~= m.frames);
                            assert(balanced(m.frames.push(mark), d));
                            lemma_balanced_push(m.frames.push(mark), leave, d);
                            lemma_balanced_schedule(
                                m.frames.push(mark).push(leave),
                                function.body@,
                                0,
                                d,
                            );
                        }
                    },
                    Callable::Native(native) => {},
                }
            }
        },
        _ => {
            lemma_raise_balanced(m, runtime_error(paren, "can only call functions"@), d + 1);
        },
    }
}

/// A frame that is run leaves stacks that fit.
pub proof fn lemma_run_balanced(m: Machine, frame: Frame)
    requires
        m.awaiting == Awaiting::Nothing,
        balanced(m.frames.push(frame), m.values.len() as int),
    ensures
        in_balance(run(m, frame).machine),
{
    let d = m.values.len() as int;
    let below = m.frames;
    assert(below.push(frame).drop_last() =~= below);
    assert(below.push(frame).last() == frame);
    match frame {
        Frame::Program => {},
        Frame::Statement => {},
        Frame::Execute(stmt) => {
            lemma_execute_balanced(m, statement_of(stmt));
        },
        Frame::Evaluate(expr) => {
            lemma_evaluate_balanced(m, expression_of(expr));
        },
        Frame::Leave { environment } => {},
        Frame::Loop { condition, body, height } => {
            lemma_above_floor(below, d);
            let test = Frame::Test { condition, body };
            lemma_balanced_push(below, test, d + 1);
            lemma_balanced_push(below.push(test), Frame::Evaluate(condition), d);
        },
        Frame::Boundary { environment, height } => {},
        Frame::Unary(operator) => {
            match unary_value(operator, m.values.last()) {
                Ok(value) => {},
                Err(signal) => {
                    lemma_raise_balanced(drop_value(m), signal, d);
                },
            }
        },
        Frame::Binary(operator) => {
            let taken = drop_value(drop_value(m));
            let left = m.values[m.values.len() - 2];
            let right = m.values.last();
            lemma_raise_balanced(taken, runtime_error(operator, "invalid operator"@), d - 1);
            lemma_raise_balanced(
                taken,
                runtime_error(operator, "interpreter error invalid number"@),
                d - 1,
            );
        },
        Frame::Logical { operator, right } => {
            lemma_balanced_push(below, Frame::Evaluate(right), d - 1);
        },
        Frame::Assign(name) => {
            lemma_raise_balanced(m, Signal::Error(undefined_variable(name@)), d);
        },
        Frame::Callee { call } => {
            match expression_of(call) {
                Expr::Call(e) => {
                    lemma_raise_balanced(
                        m,
                        runtime_error(e.paren, "can only call functions"@),
                        d + e.arguments@.len(),
                    );
                    lemma_balanced_queue(below, e.arguments@, 0, d);
                },
                _ => {},
            }
        },
        Frame::Invoke { paren, count } => {
            let base = m.values.len() - count - 1;
            let taken = Machine { values: m.values.take(base), ..m };
            lemma_call_balanced(
                taken,
                paren,
                m.values[base],
                m.values.subrange(base + 1, m.values.len() as int),
            );
        },
        consumer => {
            lemma_consume_balanced(m, consumer);
        },
    }
}

/// The stacks fit each other in every state that the machine reaches by
/// its steps from a state in which they do.
pub proof fn lemma_step_keeps_balance(m: Machine, event: Event)
    requires
        in_balance(m),
    ensures
        in_balance(step(m, event).machine),
{
    if m.awaiting != Awaiting::Nothing {
        let ready = Machine { awaiting: Awaiting::Nothing, ..m };
        lemma_raise_balanced(ready, system_error("unexpected answer"@), depth(m));
        match event {
            Event::Failure(message) => {
                lemma_raise_balanced(ready, system_error(message@), depth(m));
            },
            _ => {},
        }
    } else if m.frames.len() > 0 {
        let below = Machine { frames: m.frames.drop_last(), ..m };
        assert(below.frames.push(m.frames.last()) =~= m.frames);
        lemma_run_balanced(below, m.frames.last());
    }
}

/// A frame fails for want of values exactly when there are fewer than it
/// needs: then, and in no other case, its step takes the way of the
/// exhausted value stack.
pub proof fn lemma_need_is_exact(m: Machine, frame: Frame)
    requires
        m.values.len() < need(frame),
    ensures
        run(m, frame) == raise(m, exhausted()),
{
}

/// In a state in which the stacks fit each other, no frame is short of
/// values: the step that follows does not fail for want of them.
pub proof fn lemma_balance_feeds(m: Machine)
    requires
        in_balance(m),
        m.awaiting == Awaiting::Nothing,
        m.frames.len() > 0,
    ensures
        m.values.len() >= need(m.frames.last()),
{
}

/// Statements that are listed on frames that fit no value fit none.
pub proof fn lemma_listed_balanced(frames: Seq<Frame>, statements: Seq<Stmt>, at: nat)
    requires
        at <= statements.len(),
        balanced(frames, 0),
    ensures
        balanced(listed(frames, statements, at), 0),
    decreases statements.len() - at,
{
    if at < statements.len() {
        lemma_listed_balanced(frames, statements, at + 1);
        let below = listed(frames, statements, at + 1);
        let statement = Frame::Execute(Rc::new(statements[at as int]));
        assert(below.push(Frame::Statement).drop_last() =~= below);
        lemma_balanced_push(below.push(Frame::Statement), statement, 0);
    }
}

/// A program that is put on frames that fit no value leaves frames that
/// fit none.
pub proof fn lemma_loaded_balanced(frames: Seq<Frame>, statements: Seq<Stmt>)
    requires
        balanced(frames, 0),
    ensures
        balanced(loaded(frames, statements), 0),
{
    assert(frames.push(Frame::Program).drop_last() =~= frames);
    lemma_listed_balanced(frames.push(Frame::Program), statements, 0);
}

} // verus!
