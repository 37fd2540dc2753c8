//! What holds of every step: laws of the machine, proved from its step
//! function.
use vstd::prelude::*;
use std::rc::Rc;
use crate::environment::chained;
use crate::environment::fresh_scope;
use crate::environment::lookup;
use crate::environment::resolve;
use crate::environment::ScopeView;
use crate::expr::Expr;
use crate::expr::LiteralExpr;
use crate::interpreter::machine::cut;
use crate::interpreter::machine::next;
use crate::interpreter::machine::raise;
use crate::interpreter::machine::runtime_error;
use crate::interpreter::machine::unwind;
use crate::interpreter::machine::ActionView;
use crate::interpreter::machine::Awaiting;
use crate::interpreter::machine::Event;
use crate::interpreter::machine::Frame;
use crate::interpreter::machine::Machine;
use crate::interpreter::machine::Signal;
use crate::interpreter::machine::Turn;
use crate::interpreter::semantics::arity_message;
use crate::interpreter::semantics::bound;
use crate::interpreter::semantics::call_function;
use crate::interpreter::semantics::call_value;
use crate::interpreter::semantics::enter_block;
use crate::interpreter::semantics::execute;
use crate::interpreter::semantics::run;
use crate::interpreter::semantics::schedule;
use crate::interpreter::semantics::step;
use crate::interpreter::semantics::unary_value;
use crate::value::object::truth;
use crate::token::Token;
use crate::token_type::TokenType;
use crate::value::callable::LoxCallable;
use crate::stmt::Stmt;
use crate::value::object::truthy;
use crate::value::object::Object;

verus! {

/// A literal evaluates to exactly the value it holds: the step that takes
/// it up puts that value on the values, changes nothing else and asks
/// nothing of the driver.
pub proof fn lemma_literal_is_its_value(m: Machine, literal: LiteralExpr, event: Event)
    requires
        m.awaiting == Awaiting::Nothing,
        m.frames.len() > 0,
        m.frames.last() == Frame::Evaluate(Rc::new(Expr::Literal(literal))),
    ensures
        step(m, event) == (Turn {
            machine: Machine {
                frames: m.frames.drop_last(),
                values: m.values.push(literal.value),
                ..m
            },
            action: ActionView::Continue,
        }),
{
}

/// `!` gives the true value for `nil` and `false` and the false value
/// for everything else: every number, zero too, is truthy.
pub proof fn lemma_not(operator: Token, value: Object)
    requires
        operator.tk_type == TokenType::Bang,
    ensures
        unary_value(operator, value) == Ok::<Object, Signal>(
            truth(value is Nil || value is False),
        ),
        value is Number ==> unary_value(operator, value) == Ok::<Object, Signal>(Object::False),
{
}

/// Whether a frame stops a signal: the boundary of a program stops every
/// signal, a loop stops `Break`, a call boundary `Return`, and the
/// boundary of a top-level statement both of these.
pub open spec fn stops(frame: Frame, signal: Signal) -> bool {
    frame is Program || (frame is Statement && !(signal is Error)) || (frame is Loop
        && signal is Break) || (frame is Boundary && signal is Return)
}

/// The scope that stands when the frames above the first `n` are dropped
/// from the top: the one that the lowest of the dropped `Leave` and
/// `Boundary` frames leads to, and the current one where none is dropped.
pub open spec fn scope_below(frames: Seq<Frame>, environment: usize, n: int) -> usize
    decreases frames.len() - n,
{
    if n >= frames.len() || n < 0 {
        environment
    } else {
        match frames[n] {
            Frame::Leave { environment: outer } => outer,
            Frame::Boundary { environment: outer, height } => outer,
            _ => scope_below(frames, environment, n + 1),
        }
    }
}

/// Unwinding drops frames from the top and nothing else: what is left is
/// a part of what was there. It makes no scope, binds no name and makes
/// no callable.
pub proof fn lemma_unwind_only_drops(m: Machine, signal: Signal)
    ensures
        unwind(m, signal).frames.len() <= m.frames.len(),
        unwind(m, signal).frames == m.frames.take(unwind(m, signal).frames.len() as int),
        unwind(m, signal).scopes == m.scopes,
        unwind(m, signal).callables == m.callables,
        unwind(m, signal).awaiting == m.awaiting,
    decreases m.frames.len(),
{
    if m.frames.len() == 0 {
        assert(m.frames.take(0) =~= m.frames);
    } else {
        let rest = Machine { frames: m.frames.drop_last(), ..m };
        let n = unwind(m, signal).frames.len() as int;
        match m.frames.last() {
            Frame::Program => {},
            Frame::Statement => {
                if signal is Error {
                    lemma_unwind_only_drops(Machine { environment: 0, ..rest }, signal);
                }
            },
            Frame::Leave { environment } => {
                lemma_unwind_only_drops(Machine { environment, ..rest }, signal);
            },
            Frame::Boundary { environment, height } => {
                if !(signal is Return) {
                    lemma_unwind_only_drops(Machine { environment, ..rest }, signal);
                }
            },
            Frame::Loop { condition, body, height } => {
                if !(signal is Break) {
                    lemma_unwind_only_drops(rest, signal);
                }
            },
            _ => {
                lemma_unwind_only_drops(rest, signal);
            },
        }
        assert(unwind(m, signal).frames =~= m.frames.take(n));
    }
}

/// A signal unwinds to the nearest frame that stops it: where frame `n`
/// stops the signal and no frame above it does, the frames below `n` are
/// left, all of them.
pub proof fn lemma_unwind_reaches_nearest(m: Machine, signal: Signal, n: int)
    requires
        0 <= n < m.frames.len(),
        stops(m.frames[n], signal),
        forall|k: int| n < k < m.frames.len() ==> !stops(#[trigger] m.frames[k], signal),
    ensures
        unwind(m, signal).frames == m.frames.take(n),
    decreases m.frames.len(),
{
    let last = m.frames.len() - 1;
    let rest = Machine { frames: m.frames.drop_last(), ..m };
    if n == last {
        assert(m.frames.drop_last() =~= m.frames.take(n));
    } else {
        assert(!stops(m.frames[last], signal));
        let below = match m.frames.last() {
            Frame::Leave { environment } => Machine { environment, ..rest },
            Frame::Boundary { environment, height } => Machine { environment, ..rest },
            Frame::Statement => Machine { environment: 0, ..rest },
            _ => rest,
        };
        assert(unwind(m, signal) == unwind(below, signal));
        assert forall|k: int| n < k < below.frames.len() implies !stops(
            #[trigger] below.frames[k],
            signal,
        ) by {
            assert(below.frames[k] == m.frames[k]);
        }
        lemma_unwind_reaches_nearest(below, signal, n);
        assert(below.frames.take(n) =~= m.frames.take(n));
    }
}

/// The values and the scope after a signal has unwound to frame `n`,
/// which stops it.
pub proof fn lemma_unwind_restores(m: Machine, signal: Signal, n: int)
    requires
        0 <= n < m.frames.len(),
        stops(m.frames[n], signal),
        forall|k: int| n < k < m.frames.len() ==> !stops(#[trigger] m.frames[k], signal),
    ensures
        match (m.frames[n], signal) {
            (Frame::Loop { condition, body, height }, Signal::Break) => {
                &&& unwind(m, signal).values == cut(m.values, height)
                &&& unwind(m, signal).environment == scope_below(m.frames, m.environment, n + 1)
            },
            (Frame::Boundary { environment, height }, Signal::Return(value)) => {
                &&& unwind(m, signal).values == cut(m.values, height).push(value)
                &&& unwind(m, signal).environment == environment
            },
            _ => {
                &&& unwind(m, signal).values == Seq::<Object>::empty()
                &&& unwind(m, signal).environment == 0
            },
        },
    decreases m.frames.len(),
{
    let last = m.frames.len() - 1;
    let rest = Machine { frames: m.frames.drop_last(), ..m };
    if n != last {
        assert(!stops(m.frames[last], signal));
        let below = match m.frames.last() {
            Frame::Leave { environment } => Machine { environment, ..rest },
            Frame::Boundary { environment, height } => Machine { environment, ..rest },
            Frame::Statement => Machine { environment: 0, ..rest },
            _ => rest,
        };
        assert(unwind(m, signal) == unwind(below, signal));
        assert forall|k: int| n < k < below.frames.len() implies !stops(
            #[trigger] below.frames[k],
            signal,
        ) by {
            assert(below.frames[k] == m.frames[k]);
        }
        assert(below.frames[n] == m.frames[n]);
        lemma_unwind_restores(below, signal, n);
        lemma_scope_below_dropped(m.frames, m.environment, n + 1);
    }
}

/// The scope below does not depend on the current scope where a frame
/// that leads back to a scope is among the dropped ones, and dropping
/// the top frame first changes nothing.
proof fn lemma_scope_below_dropped(frames: Seq<Frame>, environment: usize, n: int)
    requires
        0 <= n < frames.len(),
    ensures
        scope_below(frames, environment, n) == scope_below(
            frames.drop_last(),
            match frames.last() {
                Frame::Leave { environment: outer } => outer,
                Frame::Boundary { environment: outer, height } => outer,
                _ => environment,
            },
            n,
        ),
    decreases frames.len() - n,
{
    let shorter = frames.drop_last();
    if n < frames.len() - 1 {
        assert(shorter[n] == frames[n]);
        match frames[n] {
            Frame::Leave { environment: outer } => {},
            Frame::Boundary { environment: outer, height } => {},
            _ => {
                lemma_scope_below_dropped(frames, environment, n + 1);
            },
        }
    } else {
        assert(scope_below(frames, environment, n + 1) == environment);
    }
}

/// `break` ends the nearest loop and nothing more: the frames below the
/// loop are left as they were, so what follows the loop runs next; and
/// no error is reported.
pub proof fn lemma_break_ends_the_loop(m: Machine, n: int)
    requires
        0 <= n < m.frames.len(),
        m.frames[n] is Loop,
        forall|k: int|
            n < k < m.frames.len() ==> !((#[trigger] m.frames[k]) is Loop || m.frames[k] is Statement
                || m.frames[k] is Program),
    ensures
        raise(m, Signal::Break).action == ActionView::Continue,
        raise(m, Signal::Break).machine.frames == m.frames.take(n),
{
    let ready = Machine { awaiting: Awaiting::Nothing, ..m };
    assert forall|k: int| n < k < ready.frames.len() implies !stops(
        #[trigger] ready.frames[k],
        Signal::Break,
    ) by {
        assert(!(m.frames[k] is Loop || m.frames[k] is Statement || m.frames[k] is Program));
    }
    lemma_unwind_reaches_nearest(ready, Signal::Break, n);
}

/// `return` ends the nearest call, through all blocks and loops inside
/// it: the frames below the call boundary are left, the caller's scope
/// stands again, and the value of the call is the returned value, on top
/// of the values that the caller had.
pub proof fn lemma_return_ends_the_call(m: Machine, value: Object, n: int)
    requires
        0 <= n < m.frames.len(),
        m.frames[n] is Boundary,
        forall|k: int|
            n < k < m.frames.len() ==> !((#[trigger] m.frames[k]) is Boundary || m.frames[k]
                is Statement || m.frames[k] is Program),
    ensures
        ({
            let after = raise(m, Signal::Return(value));
            &&& after.action == ActionView::Continue
            &&& after.machine.frames == m.frames.take(n)
            &&& after.machine.environment == m.frames[n]->Boundary_environment
            &&& after.machine.values == cut(m.values, m.frames[n]->Boundary_height).push(value)
            &&& after.machine.values.last() == value
        }),
{
    let ready = Machine { awaiting: Awaiting::Nothing, ..m };
    let signal = Signal::Return(value);
    assert forall|k: int| n < k < ready.frames.len() implies !stops(
        #[trigger] ready.frames[k],
        signal,
    ) by {
        assert(!(m.frames[k] is Boundary || m.frames[k] is Statement || m.frames[k] is Program));
    }
    lemma_unwind_reaches_nearest(ready, signal, n);
    lemma_unwind_restores(ready, signal, n);
}

/// An error ends the program it arises in and is reported: the frames
/// below the boundary of the program are left, so no statement of the
/// program is run any more; the globals are the current scope and no
/// value is pending.
pub proof fn lemma_error_ends_the_program(m: Machine, error: crate::error::LoxResultView, n: int)
    requires
        0 <= n < m.frames.len(),
        m.frames[n] is Program,
        forall|k: int| n < k < m.frames.len() ==> !((#[trigger] m.frames[k]) is Program),
    ensures
        ({
            let after = raise(m, Signal::Error(error));
            &&& after.action == ActionView::Report(error)
            &&& after.machine.frames == m.frames.take(n)
            &&& after.machine.environment == 0
            &&& after.machine.values == Seq::<Object>::empty()
            &&& after.machine.awaiting == Awaiting::Nothing
        }),
{
    let ready = Machine { awaiting: Awaiting::Nothing, ..m };
    let signal = Signal::Error(error);
    assert forall|k: int| n < k < ready.frames.len() implies !stops(
        #[trigger] ready.frames[k],
        signal,
    ) by {
        assert(!(m.frames[k] is Program));
    }
    lemma_unwind_reaches_nearest(ready, signal, n);
    lemma_unwind_restores(ready, signal, n);
    lemma_unwind_only_drops(ready, signal);
}

/// A `break` outside a loop and a `return` outside a function end the
/// top-level statement they are in and nothing more: nothing is
/// reported, and the statements behind it are still to be run, in the
/// globals.
pub proof fn lemma_stray_jump_ends_the_statement(m: Machine, signal: Signal, n: int)
    requires
        !(signal is Error),
        0 <= n < m.frames.len(),
        m.frames[n] is Statement,
        forall|k: int| n < k < m.frames.len() ==> !stops(#[trigger] m.frames[k], signal),
    ensures
        ({
            let after = raise(m, signal);
            &&& after.action == ActionView::Continue
            &&& after.machine.frames == m.frames.take(n)
            &&& after.machine.environment == 0
            &&& after.machine.values == Seq::<Object>::empty()
        }),
{
    let ready = Machine { awaiting: Awaiting::Nothing, ..m };
    lemma_unwind_reaches_nearest(ready, signal, n);
    lemma_unwind_restores(ready, signal, n);
}

/// A call with the wrong number of arguments is an error at the closing
/// parenthesis that names both numbers, and nothing of the function is
/// run: no frame is put on the frames, no scope is made.
pub proof fn lemma_arity_mismatch(m: Machine, paren: Token, callable: LoxCallable, arguments: Seq<Object>)
    requires
        callable.func < m.callables.len(),
        m.callables[callable.func as int].spec_arity() != arguments.len(),
    ensures
        ({
            let after = call_value(m, paren, Object::Func(callable), arguments);
            &&& after.action == ActionView::Report(
                crate::error::LoxResultView::RuntimeError {
                    token: paren@,
                    message: arity_message(
                        m.callables[callable.func as int].spec_arity(),
                        arguments.len(),
                    ),
                },
            )
            &&& after.machine.frames.len() <= m.frames.len()
            &&& after.machine.frames == m.frames.take(after.machine.frames.len() as int)
            &&& after.machine.scopes == m.scopes
            &&& after.machine.callables == m.callables
        }),
{
    lemma_unwind_only_drops(
        Machine { awaiting: Awaiting::Nothing, ..m },
        runtime_error(
            paren,
            arity_message(m.callables[callable.func as int].spec_arity(), arguments.len()),
        ),
    );
}

/// Binding parameters in the newest scope changes no scope but that one.
pub proof fn lemma_bound_elsewhere(
    scopes: Seq<ScopeView>,
    scope: nat,
    params: Seq<Token>,
    arguments: Seq<Object>,
    n: nat,
    other: int,
)
    requires
        scope < scopes.len(),
        0 <= other < scopes.len(),
    ensures
        bound(scopes, scope, params, arguments, n).len() == scopes.len(),
        other != scope ==> bound(scopes, scope, params, arguments, n)[other] == scopes[other],
        bound(scopes, scope, params, arguments, n)[scope as int].enclosing
            == scopes[scope as int].enclosing,
    decreases n,
{
    if n > 0 {
        lemma_bound_elsewhere(scopes, scope, params, arguments, (n - 1) as nat, other);
    }
}

/// A name that is none of the first `n` parameters is bound in the
/// parameter scope after their binding exactly if it was before.
pub proof fn lemma_bound_other(
    scopes: Seq<ScopeView>,
    scope: nat,
    params: Seq<Token>,
    arguments: Seq<Object>,
    n: nat,
    name: Seq<char>,
)
    requires
        scope < scopes.len(),
        forall|i: int| 0 <= i < n ==> (#[trigger] params[i]).lexeme@ != name,
    ensures
        bound(scopes, scope, params, arguments, n).len() == scopes.len(),
        bound(scopes, scope, params, arguments, n)[scope as int].values.contains_key(name)
            == scopes[scope as int].values.contains_key(name),
    decreases n,
{
    if n > 0 {
        lemma_bound_other(scopes, scope, params, arguments, (n - 1) as nat, name);
    }
}

/// After the first `n` parameters were bound, parameter `i` stands for
/// argument `i`, unless a later parameter has its name.
pub proof fn lemma_bound_parameter(
    scopes: Seq<ScopeView>,
    scope: nat,
    params: Seq<Token>,
    arguments: Seq<Object>,
    n: nat,
    i: int,
)
    requires
        scope < scopes.len(),
        0 <= i < n,
        forall|j: int| i < j < n ==> (#[trigger] params[j]).lexeme@ != params[i].lexeme@,
    ensures
        bound(scopes, scope, params, arguments, n).len() == scopes.len(),
        bound(scopes, scope, params, arguments, n)[scope as int].values.contains_key(
            params[i].lexeme@,
        ),
        bound(scopes, scope, params, arguments, n)[scope as int].values[params[i].lexeme@]
            == arguments[i],
    decreases n,
{
    lemma_bound_elsewhere(scopes, scope, params, arguments, (n - 1) as nat, scope as int);
    if i < n - 1 {
        lemma_bound_parameter(scopes, scope, params, arguments, (n - 1) as nat, i);
        assert(params[n - 1].lexeme@ != params[i].lexeme@);
    }
}

/// Scoping is lexical. The body of a called function runs in a new scope
/// that lies inside the scope the function was declared in, not inside
/// the caller's; no scope that was there is changed; and a name that is
/// no parameter stands for what it stands for in the declaring scope.
pub proof fn lemma_call_is_lexical(
    m: Machine,
    params: Seq<Token>,
    body: Seq<Rc<Stmt>>,
    closure: usize,
    arguments: Seq<Object>,
    name: Seq<char>,
)
    requires
        chained(m.scopes),
        m.scopes.len() <= usize::MAX,
        m.values.len() <= usize::MAX,
        closure < m.scopes.len(),
        forall|i: int| 0 <= i < arguments.len() ==> (#[trigger] params[i]).lexeme@ != name,
    ensures
        ({
            let after = call_function(m, params, body, closure, arguments).machine;
            &&& after.environment == m.scopes.len()
            &&& after.scopes.len() == m.scopes.len() + 1
            &&& after.scopes[after.environment as int].enclosing == Some(closure)
            &&& forall|other: int| 0 <= other < m.scopes.len() ==> after.scopes[other] == m.scopes[other]
            &&& lookup(after.scopes, after.environment as nat, name) == lookup(
                m.scopes,
                closure as nat,
                name,
            )
        }),
{
    let scope = m.scopes.len();
    let opened = m.scopes.push(fresh_scope(Some(closure)));
    let after = call_function(m, params, body, closure, arguments).machine;
    lemma_bound_other(opened, scope, params, arguments, arguments.len(), name);
    lemma_bound_elsewhere(opened, scope, params, arguments, arguments.len(), 0);
    assert forall|other: int| 0 <= other < m.scopes.len() implies after.scopes[other]
        == m.scopes[other] by {
        lemma_bound_elsewhere(opened, scope, params, arguments, arguments.len(), other);
    }
    assert(!opened[scope as int].values.contains_key(name));
    lemma_same_below(m.scopes, after.scopes, closure as nat, name);
}

/// In the body of a called function a parameter stands for its argument;
/// of two parameters of one name the later one wins.
pub proof fn lemma_call_binds_parameters(
    m: Machine,
    params: Seq<Token>,
    body: Seq<Rc<Stmt>>,
    closure: usize,
    arguments: Seq<Object>,
    i: int,
)
    requires
        m.scopes.len() <= usize::MAX,
        m.values.len() <= usize::MAX,
        0 <= i < arguments.len(),
        forall|j: int|
            i < j < arguments.len() ==> (#[trigger] params[j]).lexeme@
                != params[i].lexeme@,
    ensures
        ({
            let after = call_function(m, params, body, closure, arguments).machine;
            lookup(after.scopes, after.environment as nat, params[i].lexeme@) == Some(
                arguments[i],
            )
        }),
{
    let scope = m.scopes.len();
    let opened = m.scopes.push(fresh_scope(Some(closure)));
    lemma_bound_parameter(opened, scope, params, arguments, arguments.len(), i);
}

/// A name resolves the same from a scope whose chain lies in a part of
/// the scopes that two stores share.
pub proof fn lemma_same_below(before: Seq<ScopeView>, after: Seq<ScopeView>, from: nat, name: Seq<char>)
    requires
        chained(before),
        from < before.len(),
        before.len() <= after.len(),
        forall|other: int| 0 <= other < before.len() ==> after[other] == before[other],
    ensures
        resolve(after, from, name) == resolve(before, from, name),
        lookup(after, from, name) == lookup(before, from, name),
    decreases from,
{
    assert(after[from as int] == before[from as int]);
    if !before[from as int].values.contains_key(name) {
        match before[from as int].enclosing {
            Some(outer) => {
                lemma_same_below(before, after, outer as nat, name);
            },
            None => {},
        }
    }
}

/// Leaving a block changes no binding: the scope of the block stays what
/// it was, for the functions that were declared in it.
pub proof fn lemma_leaving_keeps_the_scope(m: Machine, environment: usize)
    ensures
        run(m, Frame::Leave { environment }).machine.scopes == m.scopes,
        run(m, Frame::Leave { environment }).machine.callables == m.callables,
        run(m, Frame::Leave { environment }).machine.environment == environment,
{
}


/// Scheduling statements puts frames on the frames and leaves those below
/// as they are.
pub proof fn lemma_schedule_above(frames: Seq<Frame>, stmts: Seq<Rc<Stmt>>, at: nat)
    requires
        at <= stmts.len(),
    ensures
        schedule(frames, stmts, at).len() == frames.len() + stmts.len() - at,
        schedule(frames, stmts, at).take(frames.len() as int) == frames,
    decreases stmts.len() - at,
{
    if at < stmts.len() {
        lemma_schedule_above(frames, stmts, at + 1);
        let below = schedule(frames, stmts, at + 1);
        assert(schedule(frames, stmts, at).take(frames.len() as int) =~= below.take(
            frames.len() as int,
        ));
    } else {
        assert(frames.take(frames.len() as int) =~= frames);
    }
}

/// A block runs in a scope of its own: a new, empty scope inside the
/// current one. Directly above the frames that were there lies the frame
/// that leads back to the current scope, so that scope stands again when
/// the block is left, however it is left; and no scope that was there is
/// changed by entering the block.
pub proof fn lemma_block_has_its_scope(m: Machine, block: crate::stmt::BlockStmt)
    requires
        m.scopes.len() < usize::MAX,
    ensures
        ({
            let after = execute(m, Stmt::Block(block)).machine;
            &&& after.environment == m.scopes.len()
            &&& after.scopes == m.scopes.push(fresh_scope(Some(m.environment)))
            &&& after.frames.len() == m.frames.len() + 1 + block.statements@.len()
            &&& after.frames.take(m.frames.len() as int) == m.frames
            &&& after.frames[m.frames.len() as int] == (Frame::Leave { environment: m.environment })
        }),
{
    let base = m.frames.push(Frame::Leave { environment: m.environment });
    lemma_schedule_above(base, block.statements@, 0);
    let after = execute(m, Stmt::Block(block)).machine;
    assert(after.frames.take(base.len() as int) == base);
    assert(after.frames.take(m.frames.len() as int) =~= base.take(m.frames.len() as int));
    assert(base.take(m.frames.len() as int) =~= m.frames);
    assert(after.frames[m.frames.len() as int] == after.frames.take(base.len() as int)[m.frames.len() as int]);
}

/// What `enter_block` puts on the frames: directly above the frames that
/// were there lies the frame that leads back to the scope that was
/// current, and above it nothing but the statements; no scope and no
/// value is touched.
pub proof fn lemma_block_leads_back(m: Machine, statements: Seq<Rc<Stmt>>, environment: usize)
    ensures
        ({
            let after = enter_block(m, statements, environment);
            &&& after.environment == environment
            &&& after.frames.len() == m.frames.len() + 1 + statements.len()
            &&& after.frames.take(m.frames.len() as int) == m.frames
            &&& after.frames[m.frames.len() as int] == (Frame::Leave { environment: m.environment })
            &&& forall|k: int|
                m.frames.len() < k < after.frames.len() ==> (#[trigger] after.frames[k]) is Execute
            &&& after.scopes == m.scopes
            &&& after.values == m.values
        }),
{
    let base = m.frames.push(Frame::Leave { environment: m.environment });
    lemma_schedule_above(base, statements, 0);
    lemma_schedule_executes(base, statements, 0);
    let after = enter_block(m, statements, environment);
    assert(after.frames.take(base.len() as int) == base);
    assert(after.frames.take(m.frames.len() as int) =~= base.take(m.frames.len() as int));
    assert(base.take(m.frames.len() as int) =~= m.frames);
    assert(after.frames[m.frames.len() as int] == after.frames.take(base.len() as int)[m.frames.len() as int]);
}

/// The frames that scheduling puts on the frames are statements to run.
pub proof fn lemma_schedule_executes(frames: Seq<Frame>, stmts: Seq<Rc<Stmt>>, at: nat)
    requires
        at <= stmts.len(),
    ensures
        forall|k: int|
            frames.len() <= k < schedule(frames, stmts, at).len() ==> (#[trigger] schedule(
                frames,
                stmts,
                at,
            )[k]) is Execute,
    decreases stmts.len() - at,
{
    if at < stmts.len() {
        lemma_schedule_executes(frames, stmts, at + 1);
        lemma_schedule_above(frames, stmts, at + 1);
        let below = schedule(frames, stmts, at + 1);
        let all = schedule(frames, stmts, at);
        assert forall|k: int| frames.len() <= k < all.len() implies (#[trigger] all[k]) is Execute by {
            if k < below.len() {
                assert(all[k] == below[k]);
            }
        }
    }
}

/// A block is left into the scope it was entered from, on every way out.
/// At its end the frame that leads back is run (see
/// `lemma_leaving_keeps_the_scope`). And a signal that no frame of the
/// block stops goes on below the block as if it had been raised there,
/// in the scope that the block was entered from: where frame `n` leads
/// back from a block and no frame above it stops the signal, unwinding
/// is unwinding the frames below `n` in the scope that frame `n` leads
/// to.
pub proof fn lemma_signal_leaves_block(m: Machine, signal: Signal, n: int)
    requires
        0 <= n < m.frames.len(),
        m.frames[n] is Leave,
        forall|k: int| n < k < m.frames.len() ==> !stops(#[trigger] m.frames[k], signal),
    ensures
        unwind(m, signal) == unwind(
            Machine {
                frames: m.frames.take(n),
                environment: m.frames[n]->Leave_environment,
                ..m
            },
            signal,
        ),
    decreases m.frames.len(),
{
    let last = m.frames.len() - 1;
    let rest = Machine { frames: m.frames.drop_last(), ..m };
    if n == last {
        assert(m.frames.drop_last() =~= m.frames.take(n));
    } else {
        assert(!stops(m.frames[last], signal));
        let below = match m.frames.last() {
            Frame::Leave { environment } => Machine { environment, ..rest },
            Frame::Boundary { environment, height } => Machine { environment, ..rest },
            Frame::Statement => Machine { environment: 0, ..rest },
            _ => rest,
        };
        assert(unwind(m, signal) == unwind(below, signal));
        assert forall|k: int| n < k < below.frames.len() implies !stops(
            #[trigger] below.frames[k],
            signal,
        ) by {
            assert(below.frames[k] == m.frames[k]);
        }
        assert(below.frames[n] == m.frames[n]);
        lemma_signal_leaves_block(below, signal, n);
        assert(below.frames.take(n) =~= m.frames.take(n));
    }
}

/// A block that was taken up and is left at once, by its end or by a
/// signal, leaves the machine as it was: with no statement in it the
/// next step gives the machine from before; and a signal that is raised
/// in it unwinds as it would have before.
pub proof fn lemma_block_is_left(m: Machine, statements: Seq<Rc<Stmt>>, environment: usize, signal: Signal)
    requires
        m.awaiting == Awaiting::Nothing,
    ensures
        statements.len() == 0 ==> step(enter_block(m, statements, environment), Event::Nothing) == next(m),
        unwind(enter_block(m, statements, environment), signal) == unwind(m, signal),
{
    let after = enter_block(m, statements, environment);
    lemma_block_leads_back(m, statements, environment);
    let n = m.frames.len() as int;
    assert forall|k: int| n < k < after.frames.len() implies !stops(
        #[trigger] after.frames[k],
        signal,
    ) by {
        assert(after.frames[k] is Execute);
    }
    lemma_signal_leaves_block(after, signal, n);
    assert(Machine { frames: after.frames.take(n), environment: m.environment, ..after } == m);
    if statements.len() == 0 {
        assert(after.frames.drop_last() =~= m.frames);
    }
}

/// A function whose body ends without `return` gives `nil`: the frame
/// below the body puts `nil` on the values of the caller, in the caller's
/// scope.
pub proof fn lemma_body_end_gives_nil(m: Machine, environment: usize, height: usize)
    ensures
        run(m, Frame::Boundary { environment, height }) == next(
            Machine { environment, values: m.values.push(Object::Nil), ..m },
        ),
{
}

} // verus!
