//! Statements.
use vstd::prelude::*;
use std::rc::Rc;
use crate::error::LoxResult;
use crate::interpreter::machine::lemma_exist_push;
use crate::interpreter::machine::Action;
use crate::interpreter::machine::ActionView;
use crate::interpreter::machine::Frame;
use crate::interpreter::machine::Machine;
use crate::interpreter::machine::Printed;
use crate::interpreter::semantics::consume_value;
use crate::interpreter::semantics::enter_block;
use crate::interpreter::semantics::consumes_value;
use crate::interpreter::semantics::execute;
use crate::interpreter::semantics::printed;
use crate::interpreter::semantics::schedule;
use crate::interpreter::turned;
use crate::interpreter::Interpreter;
use crate::share::share;
use crate::stmt::BlockStmt;
use crate::stmt::BreakStmt;
use crate::stmt::ExpressionStmt;
use crate::stmt::FunctionStmt;
use crate::stmt::IfStmt;
use crate::stmt::PrintStmt;
use crate::stmt::ReturnStmt;
use crate::stmt::Stmt;
use crate::stmt::VarStmt;
use crate::stmt::WhileStmt;
use crate::value::callable::Callable;
use crate::value::callable::LoxCallable;
use crate::value::lox_function::LoxFunction;
use crate::value::object::Object;

verus! {

impl Interpreter {
    /// Takes up a statement: see [`execute`].
    pub fn execute(&mut self, stmt: &Rc<Stmt>) -> (action: Action)
        requires
            old(self).wf(),
        ensures
            final(self).wf(),
            turned(final(self)@, action@, execute(old(self)@, **stmt)),
    {
        match &**stmt {
            Stmt::Block(s) => self.visit_block_stmt(s),
            Stmt::Expression(s) => self.visit_expression_stmt(s),
            Stmt::Function(s) => self.visit_function_stmt(s),
            Stmt::If(s) => self.visit_if_stmt(s),
            Stmt::Print(s) => self.visit_print_stmt(s),
            Stmt::Var(s) => self.visit_var_stmt(s),
            Stmt::Return(s) => self.visit_return_stmt(s),
            Stmt::Break(s) => self.visit_break_stmt(s),
            Stmt::While(s) => self.visit_while_stmt(s),
        }
    }

    /// Takes up the statements of a block or of a function body, to run
    /// in scope `environment`. Below them it puts the frame that leads
    /// back to the scope that is current now: that scope is current again
    /// when the statements have run, and when a signal unwinds them.
    pub fn execute_block(&mut self, statements: &Rc<Vec<Rc<Stmt>>>, environment: usize) -> (action:
        Action)
        requires
            old(self).wf(),
            environment < old(self)@.scopes.len(),
        ensures
            final(self).wf(),
            action@ == ActionView::Continue,
            final(self)@ == enter_block(old(self)@, statements@, environment),
    {
        proof {
            lemma_exist_push(self@, Frame::Leave { environment: self.environment });
        }
        self.frames.push(Frame::Leave { environment: self.environment });
        self.environment = environment;
        let ghost base = self.frames@;
        let mut i: usize = statements.len();
        while i > 0
            invariant
                self.wf(),
                i <= statements@.len(),
                base == old(self)@.frames.push(Frame::Leave { environment: old(self)@.environment }),
                self@ == (Machine {
                    frames: schedule(base, statements@, i as nat),
                    environment,
                    ..old(self)@
                }),
            decreases i,
        {
            i -= 1;
            proof {
                lemma_exist_push(self@, Frame::Execute(statements@[i as int]));
            }
            self.frames.push(Frame::Execute(share(&statements[i])));
        }
        Action::Continue
    }

    /// Takes up an expression statement: the expression is evaluated and its
    /// value dropped.
    pub fn visit_expression_stmt(&mut self, stmt: &ExpressionStmt) -> (action: Action)
        requires
            old(self).wf(),
        ensures
            final(self).wf(),
            turned(final(self)@, action@, execute(old(self)@, Stmt::Expression(*stmt))),
    {
        self.frames.push(Frame::Discard);
        self.frames.push(Frame::Evaluate(share(&stmt.expression)));
        Action::Continue
    }

    /// Takes up a print statement: the expression is evaluated and its value
    /// handed to the driver to be printed.
    pub fn visit_print_stmt(&mut self, stmt: &PrintStmt) -> (action: Action)
        requires
            old(self).wf(),
        ensures
            final(self).wf(),
            turned(final(self)@, action@, execute(old(self)@, Stmt::Print(*stmt))),
    {
        self.frames.push(Frame::Print);
        self.frames.push(Frame::Evaluate(share(&stmt.expression)));
        Action::Continue
    }

    /// Takes up a variable declaration: the name is bound in the current
    /// scope, to the value of the initializer or to `nil`.
    pub fn visit_var_stmt(&mut self, stmt: &VarStmt) -> (action: Action)
        requires
            old(self).wf(),
        ensures
            final(self).wf(),
            turned(final(self)@, action@, execute(old(self)@, Stmt::Var(*stmt))),
    {
        match &stmt.initializer {
            Some(initializer) => {
                self.frames.push(Frame::Define(stmt.name.clone()));
                self.frames.push(Frame::Evaluate(share(initializer)));
            },
            None => {
                self.scopes.define(self.environment, stmt.name.as_string(), Object::Nil);
            },
        }
        Action::Continue
    }

    /// Takes up a block: its statements run in a new scope inside the
    /// current one, from which the current one is entered again.
    pub fn visit_block_stmt(&mut self, stmt: &BlockStmt) -> (action: Action)
        requires
            old(self).wf(),
        ensures
            final(self).wf(),
            turned(final(self)@, action@, execute(old(self)@, Stmt::Block(*stmt))),
    {
        let scope = self.scopes.new_enclosing(self.environment);
        self.execute_block(&stmt.statements, scope)
    }

    /// Takes up an `if`: the condition is evaluated, then a branch is run.
    pub fn visit_if_stmt(&mut self, stmt: &IfStmt) -> (action: Action)
        requires
            old(self).wf(),
        ensures
            final(self).wf(),
            turned(final(self)@, action@, execute(old(self)@, Stmt::If(*stmt))),
    {
        let else_branch = match &stmt.else_branch {
            Some(branch) => Some(share(branch)),
            None => None,
        };
        self.frames.push(Frame::Branch { then_branch: share(&stmt.then_branch), else_branch });
        self.frames.push(Frame::Evaluate(share(&stmt.condition)));
        Action::Continue
    }

    /// Takes up a loop: the condition is evaluated, and as long as it is
    /// truthy the body is run and the condition evaluated again.
    pub fn visit_while_stmt(&mut self, stmt: &WhileStmt) -> (action: Action)
        requires
            old(self).wf(),
        ensures
            final(self).wf(),
            turned(final(self)@, action@, execute(old(self)@, Stmt::While(*stmt))),
    {
        self.frames.push(
            Frame::Test { condition: share(&stmt.condition), body: share(&stmt.body) },
        );
        self.frames.push(Frame::Evaluate(share(&stmt.condition)));
        Action::Continue
    }

    /// Takes up `break`: raises the signal that the nearest loop stops.
    pub fn visit_break_stmt(&mut self, stmt: &BreakStmt) -> (action: Action)
        requires
            old(self).wf(),
        ensures
            final(self).wf(),
            turned(final(self)@, action@, execute(old(self)@, Stmt::Break(*stmt))),
    {
        self.raise(LoxResult::Break)
    }

    /// Takes up a function declaration: the function is made with the
    /// current scope as its closure and bound to its name there.
    pub fn visit_function_stmt(&mut self, stmt: &FunctionStmt) -> (action: Action)
        requires
            old(self).wf(),
        ensures
            final(self).wf(),
            turned(final(self)@, action@, execute(old(self)@, Stmt::Function(*stmt))),
    {
        let function = LoxFunction::new(stmt, self.environment);
        let func = self.callables.len();
        self.callables.push(Callable::Function(function));
        self.scopes.define(
            self.environment,
            stmt.name.as_string(),
            Object::Func(LoxCallable { func }),
        );
        Action::Continue
    }

    /// Takes up `return`: the value is evaluated, or is `nil`, and the
    /// signal that carries it is raised.
    pub fn visit_return_stmt(&mut self, stmt: &ReturnStmt) -> (action: Action)
        requires
            old(self).wf(),
        ensures
            final(self).wf(),
            turned(final(self)@, action@, execute(old(self)@, Stmt::Return(*stmt))),
    {
        match &stmt.value {
            Some(value) => {
                self.frames.push(Frame::Return);
                self.frames.push(Frame::Evaluate(share(value)));
                Action::Continue
            },
            None => self.raise(LoxResult::return_error(Object::Nil)),
        }
    }

    /// How a value is printed.
    pub fn printed(&self, value: Object) -> (shown: Printed)
        ensures
            shown@ == printed(value, self@.callables),
    {
        match value {
            Object::Number(bits) => Printed::Number(bits),
            Object::Str(text) => Printed::Text(text),
            Object::Nil => Printed::Text(String::from_str("nil")),
            Object::True => Printed::Text(String::from_str("true")),
            Object::False => Printed::Text(String::from_str("false")),
            Object::Func(callable) => {
                if callable.func < self.callables.len() {
                    Printed::Text(self.callables[callable.func].to_string())
                } else {
                    Printed::Text(String::from_str("<Func>"))
                }
            },
        }
    }

    /// A frame that uses up the value that was on top.
    pub fn consume_value(&mut self, frame: Frame, value: Object) -> (action: Action)
        requires
            old(self).wf(),
            consumes_value(frame),
        ensures
            final(self).wf(),
            turned(
                final(self)@,
                action@,
                consume_value(
                    Machine { values: old(self)@.values.push(value), ..old(self)@ },
                    frame,
                ),
            ),
    {
        assert(old(self)@.values.push(value).drop_last() == old(self)@.values);
        proof {
            vstd::std_specs::vec::axiom_spec_len(&self.values);
        }
        match frame {
            Frame::Discard => Action::Continue,
            Frame::Print => Action::Print(self.printed(value)),
            Frame::Define(name) => {
                self.scopes.define(self.environment, name.as_string(), value);
                Action::Continue
            },
            Frame::Branch { then_branch, else_branch } => {
                if value.is_truthy() {
                    self.frames.push(Frame::Execute(then_branch));
                } else {
                    match else_branch {
                        Some(branch) => {
                            self.frames.push(Frame::Execute(branch));
                        },
                        None => {},
                    }
                }
                Action::Continue
            },
            Frame::Test { condition, body } => {
                if value.is_truthy() {
                    let again = share(&body);
                    self.frames.push(Frame::Loop { condition, body, height: self.values.len() });
                    self.frames.push(Frame::Execute(again));
                }
                Action::Continue
            },
            Frame::Return => self.raise(LoxResult::return_error(value)),
            _ => Action::Continue,
        }
    }
}

} // verus!
