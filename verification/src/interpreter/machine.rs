//! The interpreter as a machine: its state, and what one step makes of it.
//!
//! The machine walks the tree with two stacks. The frames say what is
//! still to be done, the next thing on top; the values are the results of
//! the expressions that were evaluated and not yet used. A step takes the
//! top frame and does what it asks: mostly it puts frames for the parts of
//! a statement or expression in its place, or takes values and leaves one.
//!
//! `Break`, `Return` and every error leave by unwinding: frames are
//! dropped, and scopes left, up to the frame that stops them. A loop
//! stops `Break`, a call boundary stops `Return`, and the boundary of a
//! top-level statement stops both: a `break` outside a loop and a
//! `return` outside a function end the top-level statement they are in,
//! silently, and the next statement runs. An error is stopped by the
//! boundary of the program only: it ends the program, and is reported.
//!
//! The machine makes no tree and no string of its own, but for the
//! messages of its errors: it hands on the values and the parts of the
//! program that it was given. So its model holds them as they are, and
//! only what the machine builds, its stacks, its scopes and its
//! messages, stands in the model as sequences, maps and characters.
use vstd::prelude::*;
use std::rc::Rc;
use crate::environment::ScopeView;
use crate::error::LoxResult;
use crate::error::LoxResultView;
use crate::expr::Expr;
use crate::stmt::Stmt;
use crate::text::decimal;
use crate::token::Token;
use crate::token_type::TokenType;
use crate::value::callable::Callable;
use crate::value::object::truthy;
use crate::value::object::Object;

verus! {

/// One thing still to be done.
#[derive(Debug)]
pub enum Frame {
    /// The boundary below a program.
    Program,
    /// The boundary below a top-level statement.
    Statement,
    /// Run a statement.
    Execute(Rc<Stmt>),
    /// Evaluate an expression: its value comes on top of the values.
    Evaluate(Rc<Expr>),
    /// Drop the top value.
    Discard,
    /// Print the top value.
    Print,
    /// Bind the name to the top value in the current scope.
    Define(Token),
    /// Leave a block: go back to the scope around it.
    Leave { environment: usize },
    /// Run one of the branches, by the top value.
    Branch { then_branch: Rc<Stmt>, else_branch: Option<Rc<Stmt>> },
    /// Run the body once more if the top value is truthy.
    Test { condition: Rc<Expr>, body: Rc<Stmt> },
    /// Below the body of a loop: test again. `height` is the number of
    /// values there were when the body began.
    Loop { condition: Rc<Expr>, body: Rc<Stmt>, height: usize },
    /// Return the top value.
    Return,
    /// Apply a unary operator to the top value.
    Unary(Token),
    /// Apply a binary operator to the two top values.
    Binary(Token),
    /// Decide by the top value, the left operand, whether the right one
    /// is evaluated.
    Logical { operator: Token, right: Rc<Expr> },
    /// Assign the top value, which stays.
    Assign(Token),
    /// The top value is the callee of `call`: if it can be called, take
    /// up the arguments.
    Callee { call: Rc<Expr> },
    /// Call: on the values lie the callee and `count` arguments.
    Invoke { paren: Token, count: usize },
    /// Below the body of a function: go back to the caller's scope.
    /// `height` is the number of values the caller had.
    Boundary { environment: usize, height: usize },
}

/// What the machine waits for from its driver.
#[derive(Debug, PartialEq, Eq, Clone, Copy, Structural)]
pub enum Awaiting {
    Nothing,
    /// The result of an arithmetic operation.
    Number,
    /// The result of a native function.
    Value,
}

/// What the driver hands to a step.
#[derive(Debug)]
pub enum Event {
    /// No answer: none was asked for.
    Nothing,
    /// The result of the arithmetic operation asked for.
    Number(u64),
    /// The result of the native function asked for.
    Value(Object),
    /// The native function asked for has failed.
    Failure(String),
}

/// What is to be printed: a number, which the driver writes in decimal,
/// or the text of another value.
#[derive(Debug)]
pub enum Printed {
    Number(u64),
    Text(String),
}

/// What is to be printed, a text as characters.
pub enum PrintedView {
    Number(u64),
    Text(Seq<char>),
}

impl View for Printed {
    type V = PrintedView;

    open spec fn view(&self) -> PrintedView {
        match self {
            Printed::Number(bits) => PrintedView::Number(*bits),
            Printed::Text(text) => PrintedView::Text(text@),
        }
    }
}

/// What a step asks of the driver.
#[derive(Debug)]
pub enum Action {
    /// Nothing: step again.
    Continue,
    /// Compute `left operator right` on doubles, `operator` being one of
    /// `Plus`, `Minus`, `Star`, `Slash`; hand the result to the next step.
    Arithmetic { operator: TokenType, left: u64, right: u64 },
    /// Write a line.
    Print(Printed),
    /// Call the native function of this name; hand its result, or its
    /// failure, to the next step.
    Native { name: String, arguments: Vec<Object> },
    /// Report an error. The program it arose in has been given up.
    Report(LoxResult),
    /// Nothing is left to do.
    Finished,
}

/// What a step asks, with texts by their views and arguments as a
/// sequence.
pub enum ActionView {
    Continue,
    Arithmetic { operator: TokenType, left: u64, right: u64 },
    Print(PrintedView),
    Native { name: Seq<char>, arguments: Seq<Object> },
    Report(LoxResultView),
    Finished,
}

impl View for Action {
    type V = ActionView;

    open spec fn view(&self) -> ActionView {
        match self {
            Action::Continue => ActionView::Continue,
            Action::Arithmetic { operator, left, right } => ActionView::Arithmetic {
                operator: *operator,
                left: *left,
                right: *right,
            },
            Action::Print(printed) => ActionView::Print(printed@),
            Action::Native { name, arguments } => ActionView::Native {
                name: name@,
                arguments: arguments@,
            },
            Action::Report(error) => ActionView::Report(error@),
            Action::Finished => ActionView::Finished,
        }
    }
}

/// The state of the interpreter.
pub struct Machine {
    /// All scopes made so far; scope 0 holds the globals.
    pub scopes: Seq<ScopeView>,
    /// All callables made so far; a function value names one by its place.
    pub callables: Seq<Callable>,
    /// The current scope.
    pub environment: usize,
    /// What is still to be done, the next thing last.
    pub frames: Seq<Frame>,
    /// The values not yet used, the newest last.
    pub values: Seq<Object>,
    pub awaiting: Awaiting,
}

/// A step's result: the new state and what the driver is asked to do.
pub struct Turn {
    pub machine: Machine,
    pub action: ActionView,
}

/// What unwinds the frames.
pub enum Signal {
    Break,
    Return(Object),
    Error(LoxResultView),
}

/// The signal that a result of the error channel stands for.
pub open spec fn signal_of(result: LoxResult) -> Signal {
    match result {
        LoxResult::Break => Signal::Break,
        LoxResult::Return { value } => Signal::Return(value),
        error => Signal::Error(error@),
    }
}

/// The scope that a frame leads back to, where it does so.
pub open spec fn frame_scope(frame: Frame) -> usize {
    match frame {
        Frame::Leave { environment } => environment,
        Frame::Boundary { environment, height } => environment,
        _ => 0,
    }
}

/// The scope that a callable was declared in, where it was declared.
pub open spec fn closure_of(callable: Callable) -> usize {
    match callable {
        Callable::Function(function) => function.closure,
        Callable::Native(_) => 0,
    }
}

/// Every scope that the machine names exists.
pub open spec fn scopes_exist(m: Machine) -> bool {
    &&& m.environment < m.scopes.len()
    &&& forall|i: int| 0 <= i < m.frames.len() ==> frame_scope(#[trigger] m.frames[i]) < m.scopes.len()
    &&& forall|j: int|
        0 <= j < m.callables.len() ==> closure_of(#[trigger] m.callables[j]) < m.scopes.len()
}

/// The first `height` values, where there are as many.
pub open spec fn cut(values: Seq<Object>, height: usize) -> Seq<Object> {
    if height <= values.len() {
        values.take(height as int)
    } else {
        values
    }
}

/// The machine after `signal` has unwound its frames: frames are dropped
/// from the top, and the scopes they lead back to are entered, up to the
/// first frame that stops the signal.
pub open spec fn unwind(m: Machine, signal: Signal) -> Machine
    decreases m.frames.len(),
{
    if m.frames.len() == 0 {
        Machine { environment: 0, values: Seq::empty(), ..m }
    } else {
        let rest = Machine { frames: m.frames.drop_last(), ..m };
        match m.frames.last() {
            Frame::Program => Machine { environment: 0, values: Seq::empty(), ..rest },
            Frame::Statement => match signal {
                Signal::Error(_) => unwind(Machine { environment: 0, ..rest }, signal),
                _ => Machine { environment: 0, values: Seq::empty(), ..rest },
            },
            Frame::Leave { environment } => unwind(Machine { environment, ..rest }, signal),
            Frame::Boundary { environment, height } => match signal {
                Signal::Return(value) => Machine {
                    environment,
                    values: cut(m.values, height).push(value),
                    ..rest
                },
                _ => unwind(Machine { environment, ..rest }, signal),
            },
            Frame::Loop { condition, body, height } => match signal {
                Signal::Break => Machine { values: cut(m.values, height), ..rest },
                _ => unwind(rest, signal),
            },
            _ => unwind(rest, signal),
        }
    }
}

/// A step that needs nothing from the driver.
pub open spec fn next(machine: Machine) -> Turn {
    Turn { machine, action: ActionView::Continue }
}

/// A step that raises `signal`: the frames are unwound; an error is
/// reported, `Break` and `Return` are not.
pub open spec fn raise(m: Machine, signal: Signal) -> Turn {
    Turn {
        machine: unwind(Machine { awaiting: Awaiting::Nothing, ..m }, signal),
        action: match signal {
            Signal::Error(error) => ActionView::Report(error),
            _ => ActionView::Continue,
        },
    }
}

/// An error of the interpreter at `token`.
pub open spec fn runtime_error(token: Token, message: Seq<char>) -> Signal {
    Signal::Error(LoxResultView::RuntimeError { token: token@, message })
}

/// A failure of the driver, or of the machine itself.
pub open spec fn system_error(message: Seq<char>) -> Signal {
    Signal::Error(LoxResultView::SystemError { message })
}

/// The error of a frame that finds fewer values than it needs.
pub open spec fn exhausted() -> Signal {
    system_error("value stack exhausted"@)
}

/// The machine with one more frame to run, before the others.
pub open spec fn push_frame(m: Machine, frame: Frame) -> Machine {
    Machine { frames: m.frames.push(frame), ..m }
}

/// The machine with one more value, the newest.
pub open spec fn push_value(m: Machine, value: Object) -> Machine {
    Machine { values: m.values.push(value), ..m }
}

/// The machine without its top value.
pub open spec fn drop_value(m: Machine) -> Machine {
    Machine { values: m.values.drop_last(), ..m }
}


/// A frame that leads to an existing scope can be put on the frames.
pub proof fn lemma_exist_push(m: Machine, frame: Frame)
    requires
        scopes_exist(m),
        frame_scope(frame) < m.scopes.len(),
    ensures
        scopes_exist(push_frame(m, frame)),
{
    let after = push_frame(m, frame);
    assert forall|k: int| 0 <= k < after.frames.len() implies frame_scope(
        #[trigger] after.frames[k],
    ) < after.scopes.len() by {
        if k < m.frames.len() {
            assert(after.frames[k] == m.frames[k]);
        }
    }
}

/// The scopes can change as long as none goes away.
pub proof fn lemma_exist_scopes(m: Machine, scopes: Seq<ScopeView>)
    requires
        scopes_exist(m),
        scopes.len() >= m.scopes.len(),
    ensures
        scopes_exist(Machine { scopes, ..m }),
{
    let after = Machine { scopes, ..m };
    assert forall|k: int| 0 <= k < after.frames.len() implies frame_scope(
        #[trigger] after.frames[k],
    ) < after.scopes.len() by {
        assert(after.frames[k] == m.frames[k]);
    }
    assert forall|j: int| 0 <= j < after.callables.len() implies closure_of(
        #[trigger] after.callables[j],
    ) < after.scopes.len() by {
        assert(after.callables[j] == m.callables[j]);
    }
}

} // verus!
