//! The interpreter.
//!
//! It runs a program one step at a time. What it cannot do itself, it
//! asks of its driver: a step returns an [`Action`], and where the action
//! has a result, the driver hands it to the next step as an [`Event`].
use vstd::prelude::*;
use std::rc::Rc;
use crate::environment::bind;
use crate::environment::chained;
use crate::environment::defined;
use crate::environment::fresh_scope;
use crate::environment::Environment;
use crate::error::LoxResult;
use crate::interpreter::balance::depth;
use crate::interpreter::balance::in_balance;
use crate::interpreter::balance::lemma_loaded_balanced;
use crate::interpreter::balance::lemma_step_keeps_balance;
use crate::interpreter::machine::frame_scope;
use crate::interpreter::machine::lemma_exist_push;
use crate::interpreter::machine::push_frame;
use crate::interpreter::machine::raise;
use crate::interpreter::machine::scopes_exist;
use crate::interpreter::machine::signal_of;
use crate::interpreter::machine::unwind;
use crate::interpreter::machine::Action;
use crate::interpreter::machine::ActionView;
use crate::interpreter::machine::Awaiting;
use crate::interpreter::machine::Event;
use crate::interpreter::machine::Frame;
use crate::interpreter::machine::Machine;
use crate::interpreter::machine::Turn;
use crate::interpreter::semantics::absorb;
use crate::interpreter::standing::sound;
use crate::interpreter::semantics::listed;
use crate::interpreter::semantics::loaded;
use crate::interpreter::semantics::proceed;
use crate::interpreter::semantics::proceed_after;
use crate::interpreter::semantics::run;
use crate::interpreter::semantics::step;
use crate::native::NativeClock;
use crate::share::share;
use crate::stmt::Stmt;
use crate::value::callable::Callable;
use crate::value::callable::LoxCallable;
use crate::value::callable::NativeFunction;
use crate::value::object::Object;

pub mod machine;
pub mod semantics;
pub mod laws;
pub mod balance;
pub mod standing;
pub mod expr_interpreter;
pub mod stmt_interpreter;

verus! {

/// The state `after` and the action `action` are what `turn` says.
pub open spec fn turned(after: Machine, action: ActionView, turn: Turn) -> bool {
    after == turn.machine && action == turn.action
}

/// The interpreter: the scopes, the callables, and what is still to be run.
/// One interpreter runs program after program; what one declares, the
/// next finds.
pub struct Interpreter {
    scopes: Environment,
    callables: Vec<Callable>,
    environment: usize,
    frames: Vec<Frame>,
    values: Vec<Object>,
    awaiting: Awaiting,
}

impl Interpreter {
    /// The state of the machine.
    pub closed spec fn view(&self) -> Machine {
        Machine {
            scopes: self.scopes@,
            callables: self.callables@,
            environment: self.environment,
            frames: self.frames@,
            values: self.values@,
            awaiting: self.awaiting,
        }
    }

    /// The scopes are chained, and every scope that the machine names
    /// exists.
    pub closed spec fn wf(&self) -> bool {
        &&& self.scopes.wf()
        &&& scopes_exist(self@)
    }

    /// The machine of a well-formed interpreter is sound.
    pub proof fn lemma_wf(&self)
        requires
            self.wf(),
        ensures
            sound(self@),
    {
        self.scopes.lemma_wf_chained();
    }

    /// An interpreter with nothing to do, whose globals bind `clock` to
    /// the one native function there is.
    pub fn new() -> (interpreter: Self)
        ensures
            interpreter.wf(),
            interpreter@.environment == 0,
            interpreter@.frames.len() == 0,
            interpreter@.values.len() == 0,
            interpreter@.awaiting == Awaiting::Nothing,
            interpreter@.callables.len() == 1,
            interpreter@.callables[0] matches Callable::Native(native) && native.name@ == "clock"@
                && native.arity == 0,
            interpreter@.scopes == seq![
                bind(fresh_scope(None), "clock"@, Object::Func(LoxCallable { func: 0 })),
            ],
            in_balance(interpreter@),
    {
        let mut interpreter = Self {
            scopes: Environment::new(),
            callables: Vec::new(),
            environment: 0,
            frames: Vec::new(),
            values: Vec::new(),
            awaiting: Awaiting::Nothing,
        };
        let clock = NativeClock::new();
        interpreter.define_native(clock.name(), clock.arity());
        assert(interpreter@.scopes =~= seq![
            bind(fresh_scope(None), "clock"@, Object::Func(LoxCallable { func: 0 })),
        ]);
        interpreter
    }

    /// Installs a native function in the globals. A call of it is handed
    /// to the driver under this name.
    pub fn define_native(&mut self, name: String, arity: usize)
        requires
            old(self).wf(),
        ensures
            final(self).wf(),
            final(self)@ == (Machine {
                callables: old(self)@.callables.push(
                    Callable::Native(NativeFunction { name, arity }),
                ),
                scopes: defined(
                    old(self)@.scopes,
                    0,
                    name@,
                    Object::Func(LoxCallable { func: old(self)@.callables.len() as usize }),
                ),
                ..old(self)@
            }),
    {
        proof {
            self.scopes.lemma_wf_chained();
        }
        let func = self.callables.len();
        let bound_name = name.clone();
        self.callables.push(Callable::Native(NativeFunction { name, arity }));
        self.scopes.define(0, bound_name, Object::Func(LoxCallable { func }));
    }

    /// Puts the statements of a program on the frames, to be run in their
    /// order by the steps that follow.
    pub fn interpreter(&mut self, statements: Vec<Stmt>)
        requires
            old(self).wf(),
        ensures
            final(self).wf(),
            final(self)@ == (Machine {
                frames: loaded(old(self)@.frames, statements@),
                ..old(self)@
            }),
            in_balance(old(self)@) && depth(old(self)@) == 0 ==> in_balance(final(self)@),
    {
        proof {
            if in_balance(self@) && depth(self@) == 0 {
                lemma_loaded_balanced(self@.frames, statements@);
            }
            lemma_exist_push(self@, Frame::Program);
        }
        self.frames.push(Frame::Program);
        let mut statements = statements;
        let ghost program = statements@;
        let ghost base = self@.frames;
        while statements.len() > 0
            invariant
                self.wf(),
                statements@ == program.take(statements@.len() as int),
                statements@.len() <= program.len(),
                base == old(self)@.frames.push(Frame::Program),
                self@ == (Machine {
                    frames: listed(base, program, statements@.len() as nat),
                    ..old(self)@
                }),
            decreases statements@.len(),
        {
            let stmt = statements.pop().unwrap();
            proof {
                lemma_exist_push(self@, Frame::Statement);
                lemma_exist_push(
                    push_frame(self@, Frame::Statement),
                    Frame::Execute(Rc::new(stmt)),
                );
            }
            self.frames.push(Frame::Statement);
            self.frames.push(Frame::Execute(Rc::new(stmt)));
        }
    }

    /// Gives up all that is still to be run: no frame and no value is
    /// left, and the globals are the current scope. What was declared
    /// stays.
    pub fn abandon(&mut self)
        requires
            old(self).wf(),
        ensures
            final(self).wf(),
            final(self)@ == (Machine {
                frames: Seq::empty(),
                values: Seq::empty(),
                environment: 0,
                awaiting: Awaiting::Nothing,
                ..old(self)@
            }),
            in_balance(final(self)@),
    {
        proof {
            self.scopes.lemma_wf_chained();
        }
        self.frames.clear();
        self.values.clear();
        self.environment = 0;
        self.awaiting = Awaiting::Nothing;
    }

    /// The scope that statements run in now.
    pub fn environment(&self) -> (scope: usize)
        ensures
            scope == self@.environment,
    {
        self.environment
    }

    /// How many scopes there are.
    pub fn scopes(&self) -> (count: usize)
        ensures
            count == self@.scopes.len(),
    {
        self.scopes.len()
    }

    /// The scope of the globals.
    pub fn globals(&self) -> (scope: usize)
        ensures
            scope == 0,
    {
        0
    }

    /// Whether frames are left to run, or an answer of the driver is
    /// awaited.
    pub fn is_busy(&self) -> (busy: bool)
        ensures
            busy == (self@.frames.len() > 0 || self@.awaiting != Awaiting::Nothing),
    {
        self.frames.len() > 0 || self.awaiting != Awaiting::Nothing
    }

    /// Takes the newest value: after an expression has been evaluated to
    /// the end, its value.
    pub fn take_value(&mut self) -> (value: Option<Object>)
        requires
            old(self).wf(),
        ensures
            final(self).wf(),
            old(self)@.values.len() == 0 ==> value is None && final(self)@ == old(self)@,
            old(self)@.values.len() > 0 ==> value == Some(old(self)@.values.last()) && final(self)@
                == (Machine { values: old(self)@.values.drop_last(), ..old(self)@ }),
    {
        self.values.pop()
    }

    /// One step of the machine.
    pub fn step(&mut self, event: Event) -> (action: Action)
        requires
            old(self).wf(),
        ensures
            final(self).wf(),
            turned(final(self)@, action@, step(old(self)@, event)),
            in_balance(old(self)@) ==> in_balance(final(self)@),
    {
        proof {
            if in_balance(self@) {
                lemma_step_keeps_balance(self@, event);
            }
        }
        if self.awaiting != Awaiting::Nothing {
            return self.absorb(event);
        }
        match self.frames.pop() {
            None => Action::Finished,
            Some(frame) => self.run(frame),
        }
    }

    /// Steps until the driver is needed, or `limit` steps were made that
    /// asked for nothing; then the action is `Continue`.
    pub fn proceed(&mut self, event: Event, limit: usize) -> (action: Action)
        requires
            old(self).wf(),
        ensures
            final(self).wf(),
            turned(final(self)@, action@, proceed(old(self)@, event, limit as nat)),
            in_balance(old(self)@) ==> in_balance(final(self)@),
    {
        let mut action = self.step(event);
        let mut left = limit;
        while left > 0
            invariant
                self.wf(),
                in_balance(old(self)@) ==> in_balance(self@),
                proceed(old(self)@, event, limit as nat) == (if action@ is Continue {
                    proceed_after(self@, left as nat)
                } else {
                    Turn { machine: self@, action: action@ }
                }),
            decreases left,
        {
            match action {
                Action::Continue => {},
                other => {
                    return other;
                },
            }
            action = self.step(Event::Nothing);
            left -= 1;
        }
        action
    }

    /// Takes the driver's answer.
    pub fn absorb(&mut self, event: Event) -> (action: Action)
        requires
            old(self).wf(),
        ensures
            final(self).wf(),
            turned(final(self)@, action@, absorb(old(self)@, event)),
    {
        let awaited = self.awaiting;
        self.awaiting = Awaiting::Nothing;
        match event {
            Event::Number(bits) => {
                if awaited == Awaiting::Number {
                    self.values.push(Object::Number(bits));
                    Action::Continue
                } else {
                    self.raise(LoxResult::system_error(String::from_str("unexpected answer")))
                }
            },
            Event::Value(value) => {
                if awaited == Awaiting::Value {
                    self.values.push(value);
                    Action::Continue
                } else {
                    self.raise(LoxResult::system_error(String::from_str("unexpected answer")))
                }
            },
            Event::Failure(message) => {
                if awaited == Awaiting::Value {
                    self.raise(LoxResult::system_error(message))
                } else {
                    self.raise(LoxResult::system_error(String::from_str("unexpected answer")))
                }
            },
            Event::Nothing => self.raise(
                LoxResult::system_error(String::from_str("unexpected answer")),
            ),
        }
    }

    /// Does what the frame taken from the top asks.
    pub fn run(&mut self, frame: Frame) -> (action: Action)
        requires
            old(self).wf(),
            frame_scope(frame) < old(self)@.scopes.len(),
        ensures
            final(self).wf(),
            turned(final(self)@, action@, run(old(self)@, frame)),
    {
        match frame {
            Frame::Program => Action::Continue,
            Frame::Statement => Action::Continue,
            Frame::Execute(stmt) => self.execute(&stmt),
            Frame::Evaluate(expr) => self.evaluate(&expr),
            Frame::Leave { environment } => {
                self.environment = environment;
                Action::Continue
            },
            Frame::Loop { condition, body, height } => {
                let again = share(&condition);
                self.frames.push(Frame::Test { condition, body });
                self.frames.push(Frame::Evaluate(again));
                Action::Continue
            },
            Frame::Boundary { environment, height } => {
                self.environment = environment;
                self.values.push(Object::Nil);
                Action::Continue
            },
            Frame::Unary(operator) => self.unary(operator),
            Frame::Binary(operator) => self.binary(operator),
            Frame::Logical { operator, right } => self.logical(operator, right),
            Frame::Assign(name) => self.assign(name),
            Frame::Callee { call } => self.callee(call),
            Frame::Invoke { paren, count } => self.invoke(paren, count),
            consumer => match self.values.pop() {
                Some(value) => {
                    assert(old(self)@.values == self@.values.push(value));
                    self.consume_value(consumer, value)
                },
                None => self.raise(Self::exhausted()),
            },
        }
    }

    /// The error of a frame that finds fewer values than it needs.
    pub fn exhausted() -> (error: LoxResult)
        ensures
            signal_of(error) == crate::interpreter::machine::exhausted(),
    {
        LoxResult::system_error(String::from_str("value stack exhausted"))
    }

    /// Unwinds the frames: drops them from the top, entering the scopes
    /// they lead back to, up to the first frame that stops the signal. An
    /// error is reported, `Break` and `Return` are not.
    pub fn raise(&mut self, signal: LoxResult) -> (action: Action)
        requires
            old(self).wf(),
        ensures
            final(self).wf(),
            turned(final(self)@, action@, raise(old(self)@, signal_of(signal))),
    {
        proof {
            self.scopes.lemma_wf_chained();
        }
        self.awaiting = Awaiting::Nothing;
        let ghost start = self@;
        loop
            invariant_except_break
                unwind(self@, signal_of(signal)) == unwind(start, signal_of(signal)),
            invariant
                self.wf(),
                chained(self@.scopes),
            ensures
                self.wf(),
                self@ == unwind(start, signal_of(signal)),
            decreases self.frames@.len(),
        {
            match self.frames.pop() {
                None => {
                    self.environment = 0;
                    self.values.clear();
                    break ;
                },
                Some(frame) => match frame {
                    Frame::Program => {
                        self.environment = 0;
                        self.values.clear();
                        break ;
                    },
                    Frame::Statement => {
                        self.environment = 0;
                        match &signal {
                            LoxResult::Break => {
                                self.values.clear();
                                break ;
                            },
                            LoxResult::Return { value } => {
                                self.values.clear();
                                break ;
                            },
                            _ => {},
                        }
                    },
                    Frame::Leave { environment } => {
                        self.environment = environment;
                    },
                    Frame::Boundary { environment, height } => {
                        self.environment = environment;
                        match &signal {
                            LoxResult::Return { value } => {
                                self.values.truncate(height);
                                self.values.push(value.clone());
                                break ;
                            },
                            _ => {},
                        }
                    },
                    Frame::Loop { condition, body, height } => match &signal {
                        LoxResult::Break => {
                            self.values.truncate(height);
                            break ;
                        },
                        _ => {},
                    },
                    _ => {},
                },
            }
        }
        match signal {
            LoxResult::Break => Action::Continue,
            LoxResult::Return { value } => Action::Continue,
            error => Action::Report(error),
        }
    }
}

} // verus!
