//! What stands in every state: the scopes that the machine names exist,
//! and nothing that was declared goes away.
use vstd::prelude::*;
use std::rc::Rc;
use crate::environment::assigned;
use crate::environment::chained;
use crate::environment::defined;
use crate::environment::fresh_scope;
use crate::environment::lemma_defined_chained;
use crate::environment::lemma_resolve_binds;
use crate::environment::resolve;
use crate::environment::ScopeView;
use crate::expr::Expr;
use crate::interpreter::balance::expression_of;
use crate::interpreter::balance::statement_of;
use crate::interpreter::machine::closure_of;
use crate::interpreter::machine::drop_value;
use crate::interpreter::machine::frame_scope;
use crate::interpreter::machine::lemma_exist_push;
use crate::interpreter::machine::lemma_exist_scopes;
use crate::interpreter::machine::push_frame;
use crate::interpreter::machine::raise;
use crate::interpreter::machine::scopes_exist;
use crate::interpreter::machine::unwind;
use crate::interpreter::machine::Awaiting;
use crate::interpreter::machine::Event;
use crate::interpreter::machine::Frame;
use crate::interpreter::machine::Machine;
use crate::interpreter::machine::Signal;
use crate::interpreter::semantics::bound;
use crate::interpreter::semantics::call_value;
use crate::interpreter::semantics::callee;
use crate::interpreter::semantics::consume_value;
use crate::interpreter::semantics::evaluate;
use crate::interpreter::semantics::execute;
use crate::interpreter::semantics::queue;
use crate::interpreter::semantics::run;
use crate::interpreter::semantics::schedule;
use crate::interpreter::semantics::step;
use crate::stmt::Stmt;
use crate::token::Token;
use crate::value::callable::Callable;
use crate::value::object::Object;

verus! {

/// The scopes are chained and every scope that the machine names exists.
pub open spec fn sound(m: Machine) -> bool {
    chained(m.scopes) && scopes_exist(m)
}

/// The state `after` has all that `before` had: its scopes, as they were
/// chained, and its callables, as they were.
pub open spec fn keeps(before: Machine, after: Machine) -> bool {
    &&& after.scopes.len() >= before.scopes.len()
    &&& forall|i: int|
        0 <= i < before.scopes.len() ==> (#[trigger] after.scopes[i]).enclosing
            == before.scopes[i].enclosing
    &&& after.callables.len() >= before.callables.len()
    &&& forall|j: int|
        0 <= j < before.callables.len() ==> #[trigger] after.callables[j] == before.callables[j]
}

/// Queued expressions lead to no scope.
pub proof fn lemma_queue_scopes(frames: Seq<Frame>, exprs: Seq<Rc<Expr>>, at: nat, count: nat)
    requires
        forall|k: int| 0 <= k < frames.len() ==> frame_scope(#[trigger] frames[k]) < count,
        count > 0,
    ensures
        forall|k: int|
            0 <= k < queue(frames, exprs, at).len() ==> frame_scope(
                #[trigger] queue(frames, exprs, at)[k],
            ) < count,
    decreases exprs.len() - at,
{
    if at < exprs.len() {
        lemma_queue_scopes(frames, exprs, at + 1, count);
        let below = queue(frames, exprs, at + 1);
        let all = queue(frames, exprs, at);
        assert forall|k: int| 0 <= k < all.len() implies frame_scope(#[trigger] all[k]) < count by {
            if k < below.len() {
                assert(all[k] == below[k]);
            }
        }
    }
}

/// Scheduled statements lead to no scope.
pub proof fn lemma_schedule_scopes(frames: Seq<Frame>, stmts: Seq<Rc<Stmt>>, at: nat, count: nat)
    requires
        forall|k: int| 0 <= k < frames.len() ==> frame_scope(#[trigger] frames[k]) < count,
        count > 0,
    ensures
        forall|k: int|
            0 <= k < schedule(frames, stmts, at).len() ==> frame_scope(
                #[trigger] schedule(frames, stmts, at)[k],
            ) < count,
    decreases stmts.len() - at,
{
    if at < stmts.len() {
        lemma_schedule_scopes(frames, stmts, at + 1, count);
        let below = schedule(frames, stmts, at + 1);
        let all = schedule(frames, stmts, at);
        assert forall|k: int| 0 <= k < all.len() implies frame_scope(#[trigger] all[k]) < count by {
            if k < below.len() {
                assert(all[k] == below[k]);
            }
        }
    }
}

/// Unwinding keeps a machine sound, and keeps all it has.
pub proof fn lemma_unwind_sound(m: Machine, signal: Signal)
    requires
        sound(m),
    ensures
        sound(unwind(m, signal)),
        keeps(m, unwind(m, signal)),
    decreases m.frames.len(),
{
    if m.frames.len() > 0 {
        let rest = Machine { frames: m.frames.drop_last(), ..m };
        assert forall|k: int| 0 <= k < rest.frames.len() implies frame_scope(
            #[trigger] rest.frames[k],
        ) < m.scopes.len() by {
            assert(rest.frames[k] == m.frames[k]);
        }
        let top = m.frames.last();
        assert(frame_scope(m.frames[m.frames.len() - 1]) < m.scopes.len());
        match top {
            Frame::Program => {},
            Frame::Statement => {
                if signal is Error {
                    lemma_unwind_sound(Machine { environment: 0, ..rest }, signal);
                }
            },
            Frame::Leave { environment } => {
                lemma_unwind_sound(Machine { environment, ..rest }, signal);
            },
            Frame::Boundary { environment, height } => {
                if !(signal is Return) {
                    lemma_unwind_sound(Machine { environment, ..rest }, signal);
                }
            },
            Frame::Loop { condition, body, height } => {
                if !(signal is Break) {
                    lemma_unwind_sound(rest, signal);
                }
            },
            _ => {
                lemma_unwind_sound(rest, signal);
            },
        }
    }
}

/// A signal that is raised keeps a machine sound, and keeps all it has.
pub proof fn lemma_raise_sound(m: Machine, signal: Signal)
    requires
        sound(m),
    ensures
        sound(raise(m, signal).machine),
        keeps(m, raise(m, signal).machine),
{
    lemma_unwind_sound(Machine { awaiting: Awaiting::Nothing, ..m }, signal);
}

/// A binding in an existing scope keeps a machine sound, and keeps all it
/// has.
pub proof fn lemma_define_sound(m: Machine, scope: nat, name: Seq<char>, value: Object)
    requires
        sound(m),
        scope < m.scopes.len(),
    ensures
        sound(Machine { scopes: defined(m.scopes, scope, name, value), ..m }),
        keeps(m, Machine { scopes: defined(m.scopes, scope, name, value), ..m }),
{
    lemma_defined_chained(m.scopes, scope, name, value);
    lemma_exist_scopes(m, defined(m.scopes, scope, name, value));
}

/// An assignment keeps a machine sound, and keeps all it has.
pub proof fn lemma_assign_sound(m: Machine, name: Seq<char>, value: Object)
    requires
        sound(m),
    ensures
        sound(Machine { scopes: assigned(m.scopes, m.environment as nat, name, value), ..m }),
        keeps(m, Machine { scopes: assigned(m.scopes, m.environment as nat, name, value), ..m }),
{
    lemma_resolve_binds(m.scopes, m.environment as nat, name);
    match resolve(m.scopes, m.environment as nat, name) {
        Some(found) => {
            lemma_define_sound(m, found, name, value);
        },
        None => {},
    }
}

/// Binding parameters in an existing scope keeps the scopes chained.
pub proof fn lemma_bound_chained(
    scopes: Seq<ScopeView>,
    scope: nat,
    params: Seq<Token>,
    arguments: Seq<Object>,
    n: nat,
)
    requires
        chained(scopes),
        scope < scopes.len(),
    ensures
        chained(bound(scopes, scope, params, arguments, n)),
        bound(scopes, scope, params, arguments, n).len() == scopes.len(),
        forall|i: int|
            0 <= i < scopes.len() ==> (#[trigger] bound(scopes, scope, params, arguments, n)[i]).enclosing
                == scopes[i].enclosing,
    decreases n,
{
    if n > 0 {
        lemma_bound_chained(scopes, scope, params, arguments, (n - 1) as nat);
        lemma_defined_chained(
            bound(scopes, scope, params, arguments, (n - 1) as nat),
            scope,
            params[n - 1].lexeme@,
            arguments[n - 1],
        );
    }
}

/// A new scope inside an existing one keeps the scopes chained.
pub proof fn lemma_push_chained(scopes: Seq<ScopeView>, enclosing: usize)
    requires
        chained(scopes),
        enclosing < scopes.len(),
    ensures
        chained(scopes.push(fresh_scope(Some(enclosing)))),
{
    let more = scopes.push(fresh_scope(Some(enclosing)));
    assert forall|i: int| 0 <= i < more.len() implies match (#[trigger] more[i]).enclosing {
        Some(outer) => outer < i,
        None => true,
    } by {
        if i < scopes.len() {
            assert(more[i] == scopes[i]);
        }
    }
}

/// A frame that leads to an existing scope, put on a sound machine.
pub proof fn lemma_push_sound(m: Machine, frame: Frame)
    requires
        sound(m),
        frame_scope(frame) < m.scopes.len(),
    ensures
        sound(push_frame(m, frame)),
        keeps(m, push_frame(m, frame)),
{
    lemma_exist_push(m, frame);
}

/// An expression that is taken up keeps the machine sound.
pub proof fn lemma_evaluate_sound(m: Machine, expr: Expr)
    requires
        sound(m),
    ensures
        sound(evaluate(m, expr).machine),
        keeps(m, evaluate(m, expr).machine),
{
    match expr {
        Expr::Literal(e) => {},
        Expr::Grouping(e) => {
            lemma_push_sound(m, Frame::Evaluate(e.expression));
        },
        Expr::Variable(e) => {
            lemma_raise_sound(m, Signal::Error(crate::environment::undefined_variable(e.name@)));
        },
        Expr::Assign(e) => {
            lemma_push_sound(m, Frame::Assign(e.name));
            lemma_push_sound(push_frame(m, Frame::Assign(e.name)), Frame::Evaluate(e.value));
        },
        Expr::Unary(e) => {
            lemma_push_sound(m, Frame::Unary(e.operator));
            lemma_push_sound(push_frame(m, Frame::Unary(e.operator)), Frame::Evaluate(e.right));
        },
        Expr::Binary(e) => {
            let one = push_frame(m, Frame::Binary(e.operator));
            let two = push_frame(one, Frame::Evaluate(e.right));
            lemma_push_sound(m, Frame::Binary(e.operator));
            lemma_push_sound(one, Frame::Evaluate(e.right));
            lemma_push_sound(two, Frame::Evaluate(e.left));
        },
        Expr::Logical(e) => {
            let frame = Frame::Logical { operator: e.operator, right: e.right };
            lemma_push_sound(m, frame);
            lemma_push_sound(push_frame(m, frame), Frame::Evaluate(e.left));
        },
        Expr::Call(e) => {
            let invoke = Frame::Invoke { paren: e.paren, count: e.arguments@.len() as usize };
            let callee = Frame::Callee { call: Rc::new(expr) };
            let one = push_frame(m, invoke);
            let two = push_frame(one, callee);
            lemma_push_sound(m, invoke);
            lemma_push_sound(one, callee);
            lemma_push_sound(two, Frame::Evaluate(e.callee));
        },
    }
}

/// Frames lead to existing scopes when one more that does is put on them.
pub proof fn lemma_frames_push(frames: Seq<Frame>, frame: Frame, count: nat)
    requires
        forall|k: int| 0 <= k < frames.len() ==> frame_scope(#[trigger] frames[k]) < count,
        frame_scope(frame) < count,
    ensures
        forall|k: int|
            0 <= k < frames.push(frame).len() ==> frame_scope(#[trigger] frames.push(frame)[k])
                < count,
{
    let more = frames.push(frame);
    assert forall|k: int| 0 <= k < more.len() implies frame_scope(#[trigger] more[k]) < count by {
        if k < frames.len() {
            assert(more[k] == frames[k]);
        }
    }
}

/// A new scope for a block or a call, and the statements that run in it
/// above `base`, the frames that were there and those that lead back.
pub proof fn lemma_enter_sound(
    m: Machine,
    base: Seq<Frame>,
    enclosing: usize,
    params: Seq<Token>,
    arguments: Seq<Object>,
    stmts: Seq<Rc<Stmt>>,
)
    requires
        sound(m),
        enclosing < m.scopes.len(),
        forall|k: int| 0 <= k < base.len() ==> frame_scope(#[trigger] base[k]) < m.scopes.len(),
    ensures
        ({
            let after = Machine {
                scopes: bound(
                    m.scopes.push(fresh_scope(Some(enclosing))),
                    m.scopes.len(),
                    params,
                    arguments,
                    arguments.len(),
                ),
                frames: schedule(base, stmts, 0),
                environment: m.scopes.len() as usize,
                ..m
            };
            sound(after) && keeps(m, after)
        }),
{
    let opened = m.scopes.push(fresh_scope(Some(enclosing)));
    let scope = m.scopes.len();
    lemma_push_chained(m.scopes, enclosing);
    lemma_bound_chained(opened, scope, params, arguments, arguments.len());
    let scopes = bound(opened, scope, params, arguments, arguments.len());
    lemma_schedule_scopes(base, stmts, 0, scopes.len());
    let after = Machine {
        scopes,
        frames: schedule(base, stmts, 0),
        environment: m.scopes.len() as usize,
        ..m
    };
    assert forall|i: int| 0 <= i < m.scopes.len() implies (#[trigger] after.scopes[i]).enclosing
        == m.scopes[i].enclosing by {
        assert(opened[i] == m.scopes[i]);
    }
    assert forall|j: int| 0 <= j < after.callables.len() implies closure_of(
        #[trigger] after.callables[j],
    ) < after.scopes.len() by {
        assert(after.callables[j] == m.callables[j]);
    }
}

/// A statement that is taken up keeps the machine sound.
pub proof fn lemma_execute_sound(m: Machine, stmt: Stmt)
    requires
        sound(m),
    ensures
        sound(execute(m, stmt).machine),
        keeps(m, execute(m, stmt).machine),
{
    match stmt {
        Stmt::Expression(s) => {
            lemma_push_sound(m, Frame::Discard);
            lemma_push_sound(push_frame(m, Frame::Discard), Frame::Evaluate(s.expression));
        },
        Stmt::Print(s) => {
            lemma_push_sound(m, Frame::Print);
            lemma_push_sound(push_frame(m, Frame::Print), Frame::Evaluate(s.expression));
        },
        Stmt::Var(s) => {
            match s.initializer {
                Some(initializer) => {
                    lemma_push_sound(m, Frame::Define(s.name));
                    lemma_push_sound(
                        push_frame(m, Frame::Define(s.name)),
                        Frame::Evaluate(initializer),
                    );
                },
                None => {
                    lemma_define_sound(m, m.environment as nat, s.name.lexeme@, Object::Nil);
                },
            }
        },
        Stmt::Block(s) => {
            let leave = Frame::Leave { environment: m.environment };
            lemma_frames_push(m.frames, leave, m.scopes.len());
            lemma_enter_sound(
                m,
                m.frames.push(leave),
                m.environment,
                Seq::empty(),
                Seq::empty(),
                s.statements@,
            );
        },
        Stmt::If(s) => {
            let branch = Frame::Branch { then_branch: s.then_branch, else_branch: s.else_branch };
            lemma_push_sound(m, branch);
            lemma_push_sound(push_frame(m, branch), Frame::Evaluate(s.condition));
        },
        Stmt::While(s) => {
            let test = Frame::Test { condition: s.condition, body: s.body };
            lemma_push_sound(m, test);
            lemma_push_sound(push_frame(m, test), Frame::Evaluate(s.condition));
        },
        Stmt::Break(s) => {
            lemma_raise_sound(m, Signal::Break);
        },
        Stmt::Function(s) => {
            let function = Callable::Function(
                crate::value::lox_function::LoxFunction {
                    name: s.name,
                    params: s.params,
                    body: s.body,
                    closure: m.environment,
                },
            );
            let declared = Machine { callables: m.callables.push(function), ..m };
            assert forall|j: int| 0 <= j < declared.callables.len() implies closure_of(
                #[trigger] declared.callables[j],
            ) < declared.scopes.len() by {
                if j < m.callables.len() {
                    assert(declared.callables[j] == m.callables[j]);
                }
            }
            lemma_define_sound(
                declared,
                m.environment as nat,
                s.name.lexeme@,
                Object::Func(
                    crate::value::callable::LoxCallable { func: m.callables.len() as usize },
                ),
            );
        },
        Stmt::Return(s) => {
            match s.value {
                Some(value) => {
                    lemma_push_sound(m, Frame::Return);
                    lemma_push_sound(push_frame(m, Frame::Return), Frame::Evaluate(value));
                },
                None => {
                    lemma_raise_sound(m, Signal::Return(Object::Nil));
                },
            }
        },
    }
}

/// A frame that uses up the top value keeps the machine sound.
pub proof fn lemma_consume_sound(m: Machine, frame: Frame)
    requires
        sound(m),
    ensures
        sound(consume_value(m, frame).machine),
        keeps(m, consume_value(m, frame).machine),
{
    let rest = drop_value(m);
    match frame {
        Frame::Define(name) => {
            lemma_define_sound(rest, m.environment as nat, name.lexeme@, m.values.last());
        },
        Frame::Branch { then_branch, else_branch } => {
            lemma_push_sound(rest, Frame::Execute(then_branch));
            match else_branch {
                Some(branch) => {
                    lemma_push_sound(rest, Frame::Execute(branch));
                },
                None => {},
            }
        },
        Frame::Test { condition, body } => {
            let mark = Frame::Loop { condition, body, height: rest.values.len() as usize };
            lemma_raise_sound(rest, crate::interpreter::semantics::overflow());
            lemma_push_sound(rest, mark);
            lemma_push_sound(push_frame(rest, mark), Frame::Execute(body));
        },
        Frame::Return => {
            lemma_raise_sound(rest, Signal::Return(m.values.last()));
        },
        _ => {},
    }
}

/// A call keeps the machine sound.
pub proof fn lemma_call_sound(m: Machine, paren: Token, callee: Object, arguments: Seq<Object>)
    requires
        sound(m),
    ensures
        sound(call_value(m, paren, callee, arguments).machine),
        keeps(m, call_value(m, paren, callee, arguments).machine),
{
    let after = call_value(m, paren, callee, arguments);
    match callee {
        Object::Func(callable) => {
            if callable.func < m.callables.len() {
                let called = m.callables[callable.func as int];
                assert(closure_of(called) < m.scopes.len());
                match called {
                    Callable::Function(function) => {
                        let mark = Frame::Boundary {
                            environment: m.environment,
                            height: m.values.len() as usize,
                        };
                        let leave = Frame::Leave { environment: m.environment };
                        lemma_frames_push(m.frames, mark, m.scopes.len());
                        lemma_frames_push(m.frames.push(mark), leave, m.scopes.len());
                        lemma_enter_sound(
                            m,
                            m.frames.push(mark).push(leave),
                            function.closure,
                            function.params@,
                            arguments,
                            function.body@,
                        );
                    },
                    Callable::Native(native) => {},
                }
            }
        },
        _ => {},
    }
    if after.action is Report {
        lemma_raise_sound(m, Signal::Error(after.action->Report_0));
    }
}

/// A frame that is run keeps the machine sound.
pub proof fn lemma_run_sound(m: Machine, frame: Frame)
    requires
        sound(m),
        frame_scope(frame) < m.scopes.len(),
    ensures
        sound(run(m, frame).machine),
        keeps(m, run(m, frame).machine),
{
    let after = run(m, frame);
    match frame {
        Frame::Execute(stmt) => {
            lemma_execute_sound(m, statement_of(stmt));
        },
        Frame::Evaluate(expr) => {
            lemma_evaluate_sound(m, expression_of(expr));
        },
        Frame::Loop { condition, body, height } => {
            let test = Frame::Test { condition, body };
            lemma_push_sound(m, test);
            lemma_push_sound(push_frame(m, test), Frame::Evaluate(condition));
        },
        Frame::Logical { operator, right } => {
            lemma_push_sound(drop_value(m), Frame::Evaluate(right));
        },
        Frame::Assign(name) => {
            if m.values.len() > 0 {
                lemma_assign_sound(m, name.lexeme@, m.values.last());
            }
        },
        Frame::Callee { call } => {
            match expression_of(call) {
                Expr::Call(e) => {
                    lemma_queue_scopes(m.frames, e.arguments@, 0, m.scopes.len());
                },
                _ => {},
            }
        },
        Frame::Invoke { paren, count } => {
            if m.values.len() > count {
                let base = m.values.len() - count - 1;
                lemma_call_sound(
                    Machine { values: m.values.take(base), ..m },
                    paren,
                    m.values[base],
                    m.values.subrange(base + 1, m.values.len() as int),
                );
            }
        },
        Frame::Discard => {
            lemma_consume_sound(m, frame);
        },
        Frame::Print => {
            lemma_consume_sound(m, frame);
        },
        Frame::Define(name) => {
            lemma_consume_sound(m, frame);
        },
        Frame::Branch { then_branch, else_branch } => {
            lemma_consume_sound(m, frame);
        },
        Frame::Test { condition, body } => {
            lemma_consume_sound(m, frame);
        },
        Frame::Return => {
            lemma_consume_sound(m, frame);
        },
        _ => {},
    }
    if after.action is Report {
        lemma_raise_sound(m, Signal::Error(after.action->Report_0));
        lemma_raise_sound(drop_value(m), Signal::Error(after.action->Report_0));
        lemma_raise_sound(drop_value(drop_value(m)), Signal::Error(after.action->Report_0));
    }
}

/// In every state that the machine reaches by its steps from a sound
/// state, the scopes are chained and every scope that a frame leads back
/// to, and every scope that a function was declared in, exists; and a
/// step takes nothing away: every scope stays, inside the scope it was
/// made in, and every callable stays what it was.
pub proof fn lemma_step_sound(m: Machine, event: Event)
    requires
        sound(m),
    ensures
        sound(step(m, event).machine),
        keeps(m, step(m, event).machine),
{
    let after = step(m, event);
    if m.awaiting != Awaiting::Nothing {
        let ready = Machine { awaiting: Awaiting::Nothing, ..m };
        if after.action is Report {
            lemma_raise_sound(ready, Signal::Error(after.action->Report_0));
        }
    } else if m.frames.len() > 0 {
        let below = Machine { frames: m.frames.drop_last(), ..m };
        assert forall|k: int| 0 <= k < below.frames.len() implies frame_scope(
            #[trigger] below.frames[k],
        ) < m.scopes.len() by {
            assert(below.frames[k] == m.frames[k]);
        }
        assert(frame_scope(m.frames[m.frames.len() - 1]) < m.scopes.len());
        lemma_run_sound(below, m.frames.last());
    }
}

} // verus!
