//! Expressions.
use vstd::prelude::*;
use std::rc::Rc;
use crate::error::LoxResult;
use crate::expr::AssignExpr;
use crate::expr::BinaryExpr;
use crate::expr::CallExpr;
use crate::expr::Expr;
use crate::expr::GroupingExpr;
use crate::expr::LiteralExpr;
use crate::expr::LogicalExpr;
use crate::expr::UnaryExpr;
use crate::expr::VariableExpr;
use crate::interpreter::machine::lemma_exist_push;
use crate::interpreter::machine::lemma_exist_scopes;
use crate::interpreter::machine::signal_of;
use crate::environment::assigned;
use crate::environment::lemma_assigned_len;
use crate::environment::defined;
use crate::interpreter::machine::runtime_error;
use crate::interpreter::machine::Action;
use crate::interpreter::machine::Awaiting;
use crate::interpreter::machine::Frame;
use crate::interpreter::machine::Machine;
use crate::interpreter::semantics::assign;
use crate::interpreter::semantics::binary;
use crate::interpreter::semantics::binary_values;
use crate::interpreter::semantics::bound;
use crate::interpreter::semantics::call_function;
use crate::interpreter::semantics::call_value;
use crate::interpreter::semantics::callee;
use crate::interpreter::semantics::compared;
use crate::interpreter::semantics::evaluate;
use crate::interpreter::semantics::invoke;
use crate::interpreter::semantics::is_arithmetic;
use crate::interpreter::semantics::logical;
use crate::interpreter::semantics::queue;
use crate::value::object::truth;
use crate::interpreter::semantics::unary;
use crate::interpreter::semantics::unary_value;
use crate::interpreter::turned;
use crate::interpreter::Interpreter;
use crate::share::share;
use crate::stmt::Stmt;
use crate::text::decimal_text;
use crate::token::Token;
use crate::token_type::TokenType;
use crate::value::callable::Callable;
use crate::value::object::negate_number;
use crate::value::object::numbers_equal;
use crate::value::object::numbers_less;
use crate::value::object::Object;

verus! {

/// What a binary operator makes of two numbers without the driver's help:
/// the outcome of a comparison; nothing for an arithmetic operator, whose
/// result the driver computes; an error for any other operator.
pub fn number_binary_evaluate(left_num: u64, right_num: u64, token: &Token) -> (result: Result<
    Option<Object>,
    LoxResult,
>)
    ensures
        match result {
            Ok(Some(value)) => compared(left_num, right_num, token.tk_type) matches Some(flag)
                && value == truth(flag),
            Ok(None) => is_arithmetic(token.tk_type),
            Err(error) => !is_arithmetic(token.tk_type) && compared(
                left_num,
                right_num,
                token.tk_type,
            ) is None && signal_of(error) == runtime_error(*token, "invalid operator"@),
        },
{
    match token.tk_type {
        TokenType::Minus => Ok(None),
        TokenType::Plus => Ok(None),
        TokenType::Star => Ok(None),
        TokenType::Slash => Ok(None),
        TokenType::BangEqual => Ok(Some(Object::from_bool(!numbers_equal(left_num, right_num)))),
        TokenType::EqualEqual => Ok(Some(Object::from_bool(numbers_equal(left_num, right_num)))),
        TokenType::Greater => Ok(Some(Object::from_bool(numbers_less(right_num, left_num)))),
        TokenType::GreaterEqual => Ok(
            Some(
                Object::from_bool(
                    numbers_less(right_num, left_num) || numbers_equal(left_num, right_num),
                ),
            ),
        ),
        TokenType::Less => Ok(Some(Object::from_bool(numbers_less(left_num, right_num)))),
        TokenType::LessEqual => Ok(
            Some(
                Object::from_bool(
                    numbers_less(left_num, right_num) || numbers_equal(left_num, right_num),
                ),
            ),
        ),
        _ => Err(LoxResult::runtime_error(token, String::from_str("invalid operator"))),
    }
}

/// What a unary operator makes of a value.
pub fn unary_evaluate(operator: &Token, right: Object) -> (result: Result<Object, LoxResult>)
    ensures
        match unary_value(*operator, right) {
            Ok(value) => result == Ok::<Object, LoxResult>(value),
            Err(signal) => result matches Err(error) && signal_of(error) == signal,
        },
{
    match operator.tk_type {
        TokenType::Minus => match right {
            Object::Number(num) => Ok(Object::Number(negate_number(num))),
            _ => Err(LoxResult::runtime_error(operator, String::from_str("invalid number"))),
        },
        TokenType::Bang => Ok(Object::from_bool(!right.is_truthy())),
        _ => Err(LoxResult::runtime_error(operator, String::from_str("invalid expression"))),
    }
}

impl Interpreter {
    /// Takes up an expression: see [`evaluate`].
    pub fn evaluate(&mut self, expr: &Rc<Expr>) -> (action: Action)
        requires
            old(self).wf(),
        ensures
            final(self).wf(),
            turned(final(self)@, action@, evaluate(old(self)@, **expr)),
    {
        match &**expr {
            Expr::Assign(e) => self.visit_assign_expr(e),
            Expr::Binary(e) => self.visit_binary_expr(e),
            Expr::Grouping(e) => self.visit_grouping_expr(e),
            Expr::Literal(e) => self.visit_literal_expr(e),
            Expr::Logical(e) => self.visit_logical_expr(e),
            Expr::Unary(e) => self.visit_unary_expr(e),
            Expr::Call(e) => self.visit_call_expr(e, share(expr)),
            Expr::Variable(e) => self.visit_variable_expr(e),
        }
    }

    /// Takes up a binary expression: the left operand is evaluated, then the
    /// right one, then the operator is applied to their values.
    pub fn visit_binary_expr(&mut self, expr: &BinaryExpr) -> (action: Action)
        requires
            old(self).wf(),
        ensures
            final(self).wf(),
            turned(final(self)@, action@, evaluate(old(self)@, Expr::Binary(*expr))),
    {
        self.frames.push(Frame::Binary(expr.operator.clone()));
        self.frames.push(Frame::Evaluate(share(&expr.right)));
        self.frames.push(Frame::Evaluate(share(&expr.left)));
        Action::Continue
    }

    /// Takes up a parenthesised expression: its value is that of the
    /// expression inside.
    pub fn visit_grouping_expr(&mut self, expr: &GroupingExpr) -> (action: Action)
        requires
            old(self).wf(),
        ensures
            final(self).wf(),
            turned(final(self)@, action@, evaluate(old(self)@, Expr::Grouping(*expr))),
    {
        self.frames.push(Frame::Evaluate(share(&expr.expression)));
        Action::Continue
    }

    /// Takes up a literal: its value is the value it holds. No scope is read
    /// or changed.
    pub fn visit_literal_expr(&mut self, expr: &LiteralExpr) -> (action: Action)
        requires
            old(self).wf(),
        ensures
            final(self).wf(),
            turned(final(self)@, action@, evaluate(old(self)@, Expr::Literal(*expr))),
    {
        self.values.push(expr.value.clone());
        Action::Continue
    }

    /// Takes up a unary expression: the operand is evaluated, then the
    /// operator is applied to its value.
    pub fn visit_unary_expr(&mut self, expr: &UnaryExpr) -> (action: Action)
        requires
            old(self).wf(),
        ensures
            final(self).wf(),
            turned(final(self)@, action@, evaluate(old(self)@, Expr::Unary(*expr))),
    {
        self.frames.push(Frame::Unary(expr.operator.clone()));
        self.frames.push(Frame::Evaluate(share(&expr.right)));
        Action::Continue
    }

    /// Takes up a variable: its value is what the name stands for, seen from
    /// the current scope; a name that no scope binds is an error.
    pub fn visit_variable_expr(&mut self, expr: &VariableExpr) -> (action: Action)
        requires
            old(self).wf(),
        ensures
            final(self).wf(),
            turned(final(self)@, action@, evaluate(old(self)@, Expr::Variable(*expr))),
    {
        match self.scopes.get(self.environment, &expr.name) {
            Ok(value) => {
                self.values.push(value);
                Action::Continue
            },
            Err(error) => self.raise(error),
        }
    }

    /// Takes up an assignment: the value is evaluated, then assigned.
    pub fn visit_assign_expr(&mut self, expr: &AssignExpr) -> (action: Action)
        requires
            old(self).wf(),
        ensures
            final(self).wf(),
            turned(final(self)@, action@, evaluate(old(self)@, Expr::Assign(*expr))),
    {
        self.frames.push(Frame::Assign(expr.name.clone()));
        self.frames.push(Frame::Evaluate(share(&expr.value)));
        Action::Continue
    }

    /// Takes up `or` or `and`: the left operand is evaluated, then it is
    /// decided whether the right one is.
    pub fn visit_logical_expr(&mut self, expr: &LogicalExpr) -> (action: Action)
        requires
            old(self).wf(),
        ensures
            final(self).wf(),
            turned(final(self)@, action@, evaluate(old(self)@, Expr::Logical(*expr))),
    {
        self.frames.push(
            Frame::Logical { operator: expr.operator.clone(), right: share(&expr.right) },
        );
        self.frames.push(Frame::Evaluate(share(&expr.left)));
        Action::Continue
    }

    /// Takes up a call: the callee is evaluated and tested, then the
    /// arguments are evaluated, then the call is made. `call` is the call
    /// expression itself, shared.
    pub fn visit_call_expr(&mut self, expr: &CallExpr, call: Rc<Expr>) -> (action: Action)
        requires
            old(self).wf(),
            *call == Expr::Call(*expr),
        ensures
            final(self).wf(),
            turned(final(self)@, action@, evaluate(old(self)@, Expr::Call(*expr))),
    {
        self.frames.push(Frame::Invoke { paren: expr.paren.clone(), count: expr.arguments.len() });
        self.frames.push(Frame::Callee { call });
        self.frames.push(Frame::Evaluate(share(&expr.callee)));
        Action::Continue
    }

    /// The callee has its value: takes up the arguments if it is a
    /// function.
    pub fn callee(&mut self, call: Rc<Expr>) -> (action: Action)
        requires
            old(self).wf(),
        ensures
            final(self).wf(),
            turned(final(self)@, action@, callee(old(self)@, *call)),
    {
        let n = self.values.len();
        if n == 0 {
            return self.raise(Self::exhausted());
        }
        match &*call {
            Expr::Call(expr) => {
                match &self.values[n - 1] {
                    Object::Func(_) => {},
                    _ => {
                        return self.raise(
                            LoxResult::runtime_error(
                                &expr.paren,
                                String::from_str("can only call functions"),
                            ),
                        );
                    },
                }
                let ghost base = self.frames@;
                let mut i: usize = expr.arguments.len();
                while i > 0
                    invariant
                        self.wf(),
                        i <= expr.arguments@.len(),
                        self@ == (Machine {
                            frames: queue(base, expr.arguments@, i as nat),
                            ..old(self)@
                        }),
                    decreases i,
                {
                    i -= 1;
                    proof {
                        lemma_exist_push(self@, Frame::Evaluate(expr.arguments@[i as int]));
                    }
                    self.frames.push(Frame::Evaluate(share(&expr.arguments[i])));
                }
                Action::Continue
            },
            _ => Action::Continue,
        }
    }

    /// The top value gives way to what the operator makes of it.
    pub fn unary(&mut self, operator: Token) -> (action: Action)
        requires
            old(self).wf(),
        ensures
            final(self).wf(),
            turned(final(self)@, action@, unary(old(self)@, operator)),
    {
        match self.values.pop() {
            Some(right) => match unary_evaluate(&operator, right) {
                Ok(value) => {
                    self.values.push(value);
                    Action::Continue
                },
                Err(error) => self.raise(error),
            },
            None => self.raise(Self::exhausted()),
        }
    }

    /// The two top values give way to what the operator makes of them.
    pub fn binary(&mut self, operator: Token) -> (action: Action)
        requires
            old(self).wf(),
        ensures
            final(self).wf(),
            turned(final(self)@, action@, binary(old(self)@, operator)),
    {
        if self.values.len() < 2 {
            return self.raise(Self::exhausted());
        }
        let right = self.values.pop().unwrap();
        let left = self.values.pop().unwrap();
        self.binary_values(operator, left, right)
    }

    pub fn binary_values(&mut self, operator: Token, left: Object, right: Object) -> (action: Action)
        requires
            old(self).wf(),
        ensures
            final(self).wf(),
            turned(final(self)@, action@, binary_values(old(self)@, operator, left, right)),
    {
        match (left, right) {
            (Object::Number(left_num), Object::Number(right_num)) => {
                match number_binary_evaluate(left_num, right_num, &operator) {
                    Ok(Some(value)) => {
                        self.values.push(value);
                        Action::Continue
                    },
                    Ok(None) => {
                        self.awaiting = Awaiting::Number;
                        Action::Arithmetic {
                            operator: operator.tk_type,
                            left: left_num,
                            right: right_num,
                        }
                    },
                    Err(error) => self.raise(error),
                }
            },
            (Object::Nil, Object::Nil) => {
                if operator.tk_type == TokenType::EqualEqual {
                    self.values.push(Object::True);
                    Action::Continue
                } else {
                    self.raise(
                        LoxResult::runtime_error(
                            &operator,
                            String::from_str("interpreter error invalid number"),
                        ),
                    )
                }
            },
            _ => self.raise(
                LoxResult::runtime_error(
                    &operator,
                    String::from_str("interpreter error invalid number"),
                ),
            ),
        }
    }

    /// The left operand stays where it decides; else the right operand is
    /// evaluated in its place.
    pub fn logical(&mut self, operator: Token, right: Rc<Expr>) -> (action: Action)
        requires
            old(self).wf(),
        ensures
            final(self).wf(),
            turned(final(self)@, action@, logical(old(self)@, operator, right)),
    {
        let n = self.values.len();
        if n == 0 {
            return self.raise(Self::exhausted());
        }
        let truthy = self.values[n - 1].is_truthy();
        if (operator.is(TokenType::Or) && truthy) || (operator.is(TokenType::And) && !truthy) {
            Action::Continue
        } else {
            self.values.pop();
            self.frames.push(Frame::Evaluate(right));
            Action::Continue
        }
    }

    /// The top value is assigned, and stays.
    pub fn assign(&mut self, name: Token) -> (action: Action)
        requires
            old(self).wf(),
        ensures
            final(self).wf(),
            turned(final(self)@, action@, assign(old(self)@, name)),
    {
        let n = self.values.len();
        if n == 0 {
            return self.raise(Self::exhausted());
        }
        let value = self.values[n - 1].clone();
        proof {
            lemma_assigned_len(self@.scopes, self@.environment as nat, name.lexeme@, value);
            lemma_exist_scopes(
                self@,
                assigned(self@.scopes, self@.environment as nat, name.lexeme@, value),
            );
        }
        match self.scopes.assign(self.environment, &name, value) {
            Ok(_) => Action::Continue,
            Err(error) => self.raise(error),
        }
    }

    /// The callee and `count` arguments give way to the call.
    pub fn invoke(&mut self, paren: Token, count: usize) -> (action: Action)
        requires
            old(self).wf(),
        ensures
            final(self).wf(),
            turned(final(self)@, action@, invoke(old(self)@, paren, count)),
    {
        if self.values.len() <= count {
            return self.raise(Self::exhausted());
        }
        let base = self.values.len() - count - 1;
        let arguments = self.values.split_off(base + 1);
        let callee = self.values.pop().unwrap();
        assert(self@.values =~= old(self)@.values.take(base as int));
        assert(arguments@ =~= old(self)@.values.subrange(
            base + 1,
            old(self)@.values.len() as int,
        ));
        self.call_value(paren, callee, arguments)
    }

    /// A call of `callee` with `arguments`.
    pub fn call_value(&mut self, paren: Token, callee: Object, arguments: Vec<Object>) -> (action:
        Action)
        requires
            old(self).wf(),
        ensures
            final(self).wf(),
            turned(final(self)@, action@, call_value(old(self)@, paren, callee, arguments@)),
    {
        match callee {
            Object::Func(callable) => {
                if callable.func >= self.callables.len() {
                    return self.raise(
                        LoxResult::runtime_error(
                            &paren,
                            String::from_str("can only call functions"),
                        ),
                    );
                }
                let arity = self.callables[callable.func].arity();
                if arity != arguments.len() {
                    let message = String::from_str("expected ").concat(
                        decimal_text(arity).as_str(),
                    ).concat(" arguments but got ").concat(decimal_text(arguments.len()).as_str());
                    return self.raise(LoxResult::runtime_error(&paren, message));
                }
                match &self.callables[callable.func] {
                    Callable::Function(function) => {
                        let params = share(&function.params);
                        let body = share(&function.body);
                        let closure = function.closure;
                        self.call(params, body, closure, arguments)
                    },
                    Callable::Native(native) => {
                        let name = native.name.clone();
                        self.awaiting = Awaiting::Value;
                        Action::Native { name, arguments }
                    },
                }
            },
            _ => self.raise(
                LoxResult::runtime_error(&paren, String::from_str("can only call functions")),
            ),
        }
    }

    /// A call of a declared function: binds the parameters in a new scope
    /// inside the closure, and takes up the body.
    pub fn call(
        &mut self,
        params: Rc<Vec<Token>>,
        body: Rc<Vec<Rc<Stmt>>>,
        closure: usize,
        arguments: Vec<Object>,
    ) -> (action: Action)
        requires
            old(self).wf(),
            closure < old(self)@.scopes.len(),
            params@.len() == arguments@.len(),
        ensures
            final(self).wf(),
            turned(
                final(self)@,
                action@,
                call_function(old(self)@, params@, body@, closure, arguments@),
            ),
    {
        proof {
            vstd::std_specs::vec::axiom_spec_len(&self.values);
        }
        let scope = self.scopes.new_enclosing(closure);
        let ghost opened = self.scopes@;
        let mut i: usize = 0;
        while i < arguments.len()
            invariant
                self.wf(),
                i <= arguments@.len(),
                params@.len() == arguments@.len(),
                scope < self@.scopes.len(),
                self@ == (Machine {
                    scopes: bound(opened, scope as nat, params@, arguments@, i as nat),
                    ..old(self)@
                }),
            decreases arguments@.len() - i,
        {
            proof {
                lemma_exist_scopes(
                    self@,
                    defined(self@.scopes, scope as nat, params@[i as int].lexeme@, arguments@[i as int]),
                );
            }
            self.scopes.define(scope, params[i].as_string(), arguments[i].clone());
            i += 1;
        }
        self.frames.push(
            Frame::Boundary { environment: self.environment, height: self.values.len() },
        );
        self.execute_block(&body, scope)
    }
}

} // verus!
