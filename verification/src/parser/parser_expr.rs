//! Expressions: the precedence ladder.
use vstd::prelude::*;
use std::rc::Rc;
use crate::error::LoxResult;
use crate::expr::lemma_call_view;
use crate::expr::lemma_expr_views_push;
use crate::expr::expr_views;
use crate::expr::AssignExpr;
use crate::expr::BinaryExpr;
use crate::expr::CallExpr;
use crate::expr::Expr;
use crate::expr::ExprView;
use crate::expr::GroupingExpr;
use crate::expr::LiteralExpr;
use crate::expr::LogicalExpr;
use crate::expr::UnaryExpr;
use crate::expr::VariableExpr;
use crate::parser::expr_agrees;
use crate::parser::grammar::after;
use crate::parser::grammar::lemma_after_after;
use crate::parser::grammar::arguments;
use crate::parser::grammar::arguments_rest;
use crate::parser::grammar::assignment;
use crate::parser::grammar::at_end;
use crate::parser::grammar::call;
use crate::parser::grammar::call_rest;
use crate::parser::grammar::expect;
use crate::parser::grammar::expression;
use crate::parser::grammar::finish_call;
use crate::parser::grammar::join;
use crate::parser::grammar::ladder;
use crate::parser::grammar::ladder_rest;
use crate::parser::grammar::operator_of;
use crate::parser::grammar::primary;
use crate::parser::grammar::remaining;
use crate::parser::grammar::token_at;
use crate::parser::grammar::unary;
use crate::parser::grammar::Outcome;
use crate::parser::Parser;
use crate::token::Token;
use crate::token_type::TokenType;
use crate::value::object::Object;

verus! {

impl Parser {
    /// `expression     → assignment ;`
    pub fn expression(&mut self) -> (result: Result<Expr, LoxResult>)
        requires
            old(self).wf(),
        ensures
            final(self).wf(),
            final(self).tokens() == old(self).tokens(),
            expr_agrees(
                result,
                final(self).position() - old(self).position(),
                expression(old(self).tokens(), old(self).position()),
            ),
        decreases remaining(old(self).tokens(), old(self).position()), 100nat,
    {
        self.assignment()
    }

    /// `assignment     → IDENTIFIER "=" assignment | logic_or ;`
    pub fn assignment(&mut self) -> (result: Result<Expr, LoxResult>)
        requires
            old(self).wf(),
        ensures
            final(self).wf(),
            final(self).tokens() == old(self).tokens(),
            expr_agrees(
                result,
                final(self).position() - old(self).position(),
                assignment(old(self).tokens(), old(self).position()),
            ),
        decreases remaining(old(self).tokens(), old(self).position()), 99nat,
    {
        let expr = match self.logic_or() {
            Ok(expr) => expr,
            Err(error) => {
                return Err(error);
            },
        };
        if self.is_match(TokenType::Equal) {
            let equals = self.previous().unwrap();
            match expr {
                Expr::Variable(e) => {
                    let name = e.name;
                    match self.assignment() {
                        Ok(value) => Ok(Expr::Assign(AssignExpr { name, value: Rc::new(value) })),
                        Err(error) => Err(error),
                    }
                },
                _ => Err(LoxResult::parse_error(equals, String::from_str("invalid assign"))),
            }
        } else {
            Ok(expr)
        }
    }

    /// `logic_or       → logic_and ( "or" logic_and )*`
    pub fn logic_or(&mut self) -> (result: Result<Expr, LoxResult>)
        requires
            old(self).wf(),
        ensures
            final(self).wf(),
            final(self).tokens() == old(self).tokens(),
            expr_agrees(
                result,
                final(self).position() - old(self).position(),
                ladder(old(self).tokens(), old(self).position(), 0),
            ),
        decreases remaining(old(self).tokens(), old(self).position()), 90nat,
    {
        self.ladder(0)
    }

    /// `logic_and      → equality ( "and" equality )* ;`
    pub fn logic_and(&mut self) -> (result: Result<Expr, LoxResult>)
        requires
            old(self).wf(),
        ensures
            final(self).wf(),
            final(self).tokens() == old(self).tokens(),
            expr_agrees(
                result,
                final(self).position() - old(self).position(),
                ladder(old(self).tokens(), old(self).position(), 1),
            ),
        decreases remaining(old(self).tokens(), old(self).position()), 86nat,
    {
        self.ladder(1)
    }

    /// `equality       → comparison ( ( "!=" | "==" ) comparison )* ;`
    pub fn equality(&mut self) -> (result: Result<Expr, LoxResult>)
        requires
            old(self).wf(),
        ensures
            final(self).wf(),
            final(self).tokens() == old(self).tokens(),
            expr_agrees(
                result,
                final(self).position() - old(self).position(),
                ladder(old(self).tokens(), old(self).position(), 2),
            ),
        decreases remaining(old(self).tokens(), old(self).position()), 82nat,
    {
        self.ladder(2)
    }

    /// `comparison     → term ( ( ">" | ">=" | "<" | "<=" ) term )* ;`
    pub fn comparison(&mut self) -> (result: Result<Expr, LoxResult>)
        requires
            old(self).wf(),
        ensures
            final(self).wf(),
            final(self).tokens() == old(self).tokens(),
            expr_agrees(
                result,
                final(self).position() - old(self).position(),
                ladder(old(self).tokens(), old(self).position(), 3),
            ),
        decreases remaining(old(self).tokens(), old(self).position()), 78nat,
    {
        self.ladder(3)
    }

    /// `term           → factor ( ( "-" | "+" ) factor )* ;`
    pub fn term(&mut self) -> (result: Result<Expr, LoxResult>)
        requires
            old(self).wf(),
        ensures
            final(self).wf(),
            final(self).tokens() == old(self).tokens(),
            expr_agrees(
                result,
                final(self).position() - old(self).position(),
                ladder(old(self).tokens(), old(self).position(), 4),
            ),
        decreases remaining(old(self).tokens(), old(self).position()), 74nat,
    {
        self.ladder(4)
    }

    /// `factor         → unary ( ( "/" | "*" ) unary )* ;`
    pub fn factor(&mut self) -> (result: Result<Expr, LoxResult>)
        requires
            old(self).wf(),
        ensures
            final(self).wf(),
            final(self).tokens() == old(self).tokens(),
            expr_agrees(
                result,
                final(self).position() - old(self).position(),
                ladder(old(self).tokens(), old(self).position(), 5),
            ),
        decreases remaining(old(self).tokens(), old(self).position()), 70nat,
    {
        self.ladder(5)
    }

    /// An operand of a level: an expression of the next tighter level.
    pub fn operand(&mut self, level: u8) -> (result: Result<Expr, LoxResult>)
        requires
            old(self).wf(),
            level < 6,
        ensures
            final(self).wf(),
            final(self).tokens() == old(self).tokens(),
            expr_agrees(
                result,
                final(self).position() - old(self).position(),
                ladder(old(self).tokens(), old(self).position(), level as nat + 1),
            ),
        decreases remaining(old(self).tokens(), old(self).position()), 88nat - 4 * level,
    {
        if level == 0 {
            self.logic_and()
        } else if level == 1 {
            self.equality()
        } else if level == 2 {
            self.comparison()
        } else if level == 3 {
            self.term()
        } else if level == 4 {
            self.factor()
        } else {
            self.unary()
        }
    }

    /// The next token is an operator of the level.
    pub fn is_operator(&self, level: u8) -> (found: bool)
        ensures
            found == (level < 6 && !at_end(self.tokens(), self.position()) && operator_of(
                level as nat,
                token_at(self.tokens(), self.position()).tk_type,
            )),
    {
        if self.is_at_end() {
            return false;
        }
        let kind = self.tokens[self.current].tk_type;
        if level == 0 {
            kind == TokenType::Or
        } else if level == 1 {
            kind == TokenType::And
        } else if level == 2 {
            kind == TokenType::BangEqual || kind == TokenType::EqualEqual
        } else if level == 3 {
            kind == TokenType::Greater || kind == TokenType::GreaterEqual || kind
                == TokenType::Less || kind == TokenType::LessEqual
        } else if level == 4 {
            kind == TokenType::Plus || kind == TokenType::Minus
        } else if level == 5 {
            kind == TokenType::Star || kind == TokenType::Slash
        } else {
            false
        }
    }

    pub fn join(level: u8, left: Expr, operator: Token, right: Expr) -> (joined: Expr)
        ensures
            joined.view() == join(level as nat, left.view(), operator@, right.view()),
    {
        if level <= 1 {
            Expr::Logical(LogicalExpr { left: Rc::new(left), operator, right: Rc::new(right) })
        } else {
            Expr::Binary(BinaryExpr { left: Rc::new(left), operator, right: Rc::new(right) })
        }
    }

    /// One binary level of the ladder, left-associative.
    pub fn ladder(&mut self, level: u8) -> (result: Result<Expr, LoxResult>)
        requires
            old(self).wf(),
            level < 6,
        ensures
            final(self).wf(),
            final(self).tokens() == old(self).tokens(),
            expr_agrees(
                result,
                final(self).position() - old(self).position(),
                ladder(old(self).tokens(), old(self).position(), level as nat),
            ),
        decreases remaining(old(self).tokens(), old(self).position()), 89nat - 4 * level,
    {
        let ghost tokens = self.tokens();
        let ghost start = self.position();
        let mut left = match self.operand(level) {
            Ok(expr) => expr,
            Err(error) => {
                return Err(error);
            },
        };
        loop
            invariant
                self.wf(),
                level < 6,
                self.tokens() == tokens,
                tokens == old(self).tokens(),
                start == old(self).position(),
                start <= self.position(),
                after(
                    ladder_rest(tokens, self.position(), level as nat, left.view()),
                    (self.position() - start) as nat,
                ) == ladder(tokens, start, level as nat),
            ensures
                expr_agrees(Ok(left), self.position() - start, ladder(tokens, start, level as nat)),
            decreases remaining(self.tokens(), self.position()),
        {
            if !self.is_operator(level) {
                break ;
            }
            let ghost at = self.position();
            self.advance();
            let operator = self.previous().unwrap();
            let right = match self.operand(level) {
                Ok(expr) => expr,
                Err(error) => {
                    return Err(error);
                },
            };
            left = Self::join(level, left, operator, right);
        }
        Ok(left)
    }

    /// `unary          → ( "!" | "-" ) unary | call`
    pub fn unary(&mut self) -> (result: Result<Expr, LoxResult>)
        requires
            old(self).wf(),
        ensures
            final(self).wf(),
            final(self).tokens() == old(self).tokens(),
            expr_agrees(
                result,
                final(self).position() - old(self).position(),
                unary(old(self).tokens(), old(self).position()),
            ),
        decreases remaining(old(self).tokens(), old(self).position()), 60nat,
    {
        if self.is_expect(TokenType::Bang) || self.is_expect(TokenType::Minus) {
            self.advance();
            let operator = self.previous().unwrap();
            match self.unary() {
                Ok(right) => Ok(Expr::Unary(UnaryExpr { operator, right: Rc::new(right) })),
                Err(error) => Err(error),
            }
        } else {
            self.call()
        }
    }

    /// `call           → primary ( "(" arguments? ")" )* ;`
    pub fn call(&mut self) -> (result: Result<Expr, LoxResult>)
        requires
            old(self).wf(),
        ensures
            final(self).wf(),
            final(self).tokens() == old(self).tokens(),
            expr_agrees(
                result,
                final(self).position() - old(self).position(),
                call(old(self).tokens(), old(self).position()),
            ),
        decreases remaining(old(self).tokens(), old(self).position()), 59nat,
    {
        let ghost tokens = self.tokens();
        let ghost start = self.position();
        let mut expr = match self.primary() {
            Ok(expr) => expr,
            Err(error) => {
                return Err(error);
            },
        };
        loop
            invariant
                self.wf(),
                self.tokens() == tokens,
                tokens == old(self).tokens(),
                start == old(self).position(),
                start <= self.position(),
                after(
                    call_rest(tokens, self.position(), expr.view()),
                    (self.position() - start) as nat,
                ) == call(tokens, start),
            ensures
                expr_agrees(Ok(expr), self.position() - start, call(tokens, start)),
            decreases remaining(self.tokens(), self.position()),
        {
            let ghost at = self.position();
            let ghost callee = expr.view();
            if self.is_match(TokenType::LeftParen) {
                expr = match self.finish_call(Rc::new(expr)) {
                    Ok(made) => made,
                    Err(error) => {
                        return Err(error);
                    },
                };
                proof {
                    let used = (self.position() - at - 1) as nat;
                    let rest = call_rest(tokens, at + 1 + used, expr.view());
                    assert(call_rest(tokens, at, callee) == after(rest, 1 + used));
                    lemma_after_after(rest, 1 + used, (at - start) as nat);
                }
            } else {
                break ;
            }
        }
        Ok(expr)
    }

    pub fn finish_call(&mut self, callee: Rc<Expr>) -> (result: Result<Expr, LoxResult>)
        requires
            old(self).wf(),
        ensures
            final(self).wf(),
            final(self).tokens() == old(self).tokens(),
            expr_agrees(
                result,
                final(self).position() - old(self).position(),
                finish_call(old(self).tokens(), old(self).position(), callee.view()),
            ),
        decreases remaining(old(self).tokens(), old(self).position()), 120nat,
    {
        let mut arguments: Vec<Rc<Expr>> = Vec::new();
        if !self.is_expect(TokenType::RightParen) {
            arguments = match self.arguments() {
                Ok(found) => found,
                Err(error) => {
                    return Err(error);
                },
            };
        } else {
            assert(expr_views(arguments@) =~= Seq::<ExprView>::empty());
        }
        match self.consume(TokenType::RightParen, "expect `)`") {
            Ok(paren) => {
                let made = CallExpr { callee, paren, arguments };
                proof {
                    lemma_call_view(made);
                }
                Ok(Expr::Call(made))
            },
            Err(error) => Err(error),
        }
    }

    /// `arguments      → expression ( "," expression )*`
    pub fn arguments(&mut self) -> (result: Result<Vec<Rc<Expr>>, LoxResult>)
        requires
            old(self).wf(),
        ensures
            final(self).wf(),
            final(self).tokens() == old(self).tokens(),
            match arguments(old(self).tokens(), old(self).position()) {
                Outcome::Done { value, used } => result matches Ok(found) && expr_views(found@)
                    == value && final(self).position() == old(self).position() + used,
                Outcome::Failed { error, used } => result matches Err(e) && e@ == error
                    && final(self).position() == old(self).position() + used,
            },
        decreases remaining(old(self).tokens(), old(self).position()), 110nat,
    {
        let ghost tokens = self.tokens();
        let ghost start = self.position();
        let mut found: Vec<Rc<Expr>> = Vec::new();
        match self.expression() {
            Ok(first) => {
                proof {
                    lemma_expr_views_push(found@, Rc::new(first));
                    assert(expr_views(found@) =~= Seq::<ExprView>::empty());
                    assert(Seq::<ExprView>::empty().push(first.view()) =~= seq![first.view()]);
                }
                found.push(Rc::new(first));
            },
            Err(error) => {
                return Err(error);
            },
        }
        loop
            invariant
                self.wf(),
                self.tokens() == tokens,
                tokens == old(self).tokens(),
                start == old(self).position(),
                start <= self.position(),
                after(
                    arguments_rest(tokens, self.position(), expr_views(found@)),
                    (self.position() - start) as nat,
                ) == arguments(tokens, start),
            ensures
                arguments(tokens, start) == (Outcome::Done {
                    value: expr_views(found@),
                    used: (self.position() - start) as nat,
                }),
            decreases remaining(self.tokens(), self.position()),
        {
            let ghost at = self.position();
            let ghost seen = expr_views(found@);
            if !self.is_match(TokenType::Comma) {
                break ;
            }
            if found.len() >= 255 {
                return Err(
                    LoxResult::parse_error(
                        self.peek_token(),
                        String::from_str("can't have more than 255 arguments"),
                    ),
                );
            }
            match self.expression() {
                Ok(next) => {
                    proof {
                        let used = (self.position() - at - 1) as nat;
                        let rest = arguments_rest(tokens, at + 1 + used, seen.push(next.view()));
                        assert(arguments_rest(tokens, at, seen) == after(rest, 1 + used));
                        lemma_after_after(rest, 1 + used, (at - start) as nat);
                        lemma_expr_views_push(found@, Rc::new(next));
                    }
                    found.push(Rc::new(next));
                },
                Err(error) => {
                    return Err(error);
                },
            }
        }
        Ok(found)
    }

    /// `primary        → NUMBER | STRING | "true" | "false" | "nil" | "(" expression ")" ;`
    pub fn primary(&mut self) -> (result: Result<Expr, LoxResult>)
        requires
            old(self).wf(),
        ensures
            final(self).wf(),
            final(self).tokens() == old(self).tokens(),
            expr_agrees(
                result,
                final(self).position() - old(self).position(),
                primary(old(self).tokens(), old(self).position()),
            ),
        decreases remaining(old(self).tokens(), old(self).position()), 58nat,
    {
        if self.is_expect(TokenType::Number) || self.is_expect(TokenType::String) {
            self.advance();
            let token = self.previous().unwrap();
            match token.literal {
                Some(value) => Ok(Expr::Literal(LiteralExpr { value })),
                None => Err(
                    LoxResult::parse_error(
                        self.previous().unwrap(),
                        String::from_str("literal without a value"),
                    ),
                ),
            }
        } else if self.is_match(TokenType::False) {
            Ok(Expr::Literal(LiteralExpr { value: Object::False }))
        } else if self.is_match(TokenType::True) {
            Ok(Expr::Literal(LiteralExpr { value: Object::True }))
        } else if self.is_match(TokenType::Nil) {
            Ok(Expr::Literal(LiteralExpr { value: Object::Nil }))
        } else if self.is_match(TokenType::Identifier) {
            Ok(Expr::Variable(VariableExpr { name: self.previous().unwrap() }))
        } else if self.is_match(TokenType::LeftParen) {
            let expr = match self.expression() {
                Ok(expr) => expr,
                Err(error) => {
                    return Err(error);
                },
            };
            match self.consume(TokenType::RightParen, "expect `)` after expression") {
                Ok(_) => Ok(Expr::Grouping(GroupingExpr { expression: Rc::new(expr) })),
                Err(error) => Err(error),
            }
        } else {
            let token = self.peek_token();
            Err(LoxResult::parse_error(token, String::from_str("failed primary parse")))
        }
    }
}

} // verus!
