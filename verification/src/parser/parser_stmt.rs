//! Declarations and statements.
use vstd::prelude::*;
use std::rc::Rc;
use crate::error::LoxResult;
use crate::expr::Expr;
use crate::expr::ExprView;
use crate::expr::LiteralExpr;
use crate::parser::expr_agrees;
use crate::parser::grammar::after;
use crate::parser::grammar::block;
use crate::parser::grammar::block_rest;
use crate::parser::grammar::break_statement;
use crate::parser::grammar::condition;
use crate::parser::grammar::declaration;
use crate::parser::grammar::declare;
use crate::parser::grammar::desugar_for;
use crate::parser::grammar::expect;
use crate::parser::grammar::expression_statement;
use crate::parser::grammar::for_clauses;
use crate::parser::grammar::for_condition;
use crate::parser::grammar::ForClauses;
use crate::parser::grammar::for_increment;
use crate::parser::grammar::for_initializer;
use crate::parser::grammar::for_statement;
use crate::parser::grammar::function;
use crate::parser::grammar::if_statement;
use crate::parser::grammar::lemma_after_after;
use crate::parser::grammar::parameters;
use crate::parser::grammar::parameters_rest;
use crate::parser::grammar::print_statement;
use crate::parser::grammar::program;
use crate::parser::grammar::program_rest;
use crate::parser::grammar::remaining;
use crate::parser::grammar::return_statement;
use crate::parser::grammar::statement;
use crate::parser::grammar::var_declaration;
use crate::parser::grammar::while_statement;
use crate::parser::grammar::Outcome;
use crate::parser::stmt_agrees;
use crate::parser::Parser;
use crate::stmt::lemma_block_view;
use crate::stmt::lemma_function_view;
use crate::stmt::lemma_program_view_push;
use crate::stmt::lemma_stmt_views_push;
use crate::stmt::program_view;
use crate::stmt::stmt_views;
use crate::stmt::BlockStmt;
use crate::stmt::BreakStmt;
use crate::stmt::ExpressionStmt;
use crate::stmt::FunctionStmt;
use crate::stmt::IfStmt;
use crate::stmt::PrintStmt;
use crate::stmt::ReturnStmt;
use crate::stmt::Stmt;
use crate::stmt::StmtView;
use crate::stmt::VarStmt;
use crate::stmt::WhileStmt;
use crate::token::lemma_views_push;
use crate::token::views;
use crate::token::Token;
use crate::token::TokenView;
use crate::token_type::TokenType;
use crate::value::object::Object;

verus! {

/// The view of an optional statement.
pub open spec fn optional_stmt_view(stmt: Option<Stmt>) -> Option<StmtView> {
    match stmt {
        Some(s) => Some(s.view()),
        None => None,
    }
}

/// The view of an optional expression that is not shared.
pub open spec fn optional_expr_view(expr: Option<Expr>) -> Option<ExprView> {
    match expr {
        Some(e) => Some(e.view()),
        None => None,
    }
}

impl Parser {
    /// `program        → declaration* EOF ;`
    pub fn program(&mut self) -> (result: Result<Vec<Stmt>, LoxResult>)
        requires
            old(self).wf(),
        ensures
            final(self).wf(),
            final(self).tokens() == old(self).tokens(),
            match program(old(self).tokens(), old(self).position()) {
                Outcome::Done { value, used } => result matches Ok(statements) && program_view(
                    statements@,
                ) == value && final(self).position() == old(self).position() + used,
                Outcome::Failed { error, used } => result matches Err(e) && e@ == error
                    && final(self).position() == old(self).position() + used,
            },
    {
        let ghost tokens = self.tokens();
        let ghost start = self.position();
        let mut statements: Vec<Stmt> = Vec::new();
        assert(program_view(statements@) =~= Seq::<StmtView>::empty());
        while !self.is_at_end()
            invariant
                self.wf(),
                self.tokens() == tokens,
                tokens == old(self).tokens(),
                start == old(self).position(),
                start <= self.position(),
                after(
                    program_rest(tokens, self.position(), program_view(statements@)),
                    (self.position() - start) as nat,
                ) == program(tokens, start),
            decreases remaining(self.tokens(), self.position()),
        {
            let ghost at = self.position();
            let ghost seen = program_view(statements@);
            match self.declaration() {
                Ok(stmt) => {
                    proof {
                        let used = (self.position() - at) as nat;
                        let rest = program_rest(tokens, at + used, seen.push(stmt.view()));
                        assert(program_rest(tokens, at, seen) == after(rest, used));
                        lemma_after_after(rest, used, (at - start) as nat);
                        lemma_program_view_push(statements@, stmt);
                    }
                    statements.push(stmt);
                },
                Err(error) => {
                    return Err(error);
                },
            }
        }
        Ok(statements)
    }

    /// `declaration    → funDecl | varDecl | statement ;`
    pub fn declaration(&mut self) -> (result: Result<Stmt, LoxResult>)
        requires
            old(self).wf(),
        ensures
            final(self).wf(),
            final(self).tokens() == old(self).tokens(),
            stmt_agrees(
                result,
                final(self).position() - old(self).position(),
                declaration(old(self).tokens(), old(self).position()),
            ),
            result is Ok ==> final(self).position() > old(self).position(),
        decreases remaining(old(self).tokens(), old(self).position()), 200nat,
    {
        match self.declare() {
            Ok(stmt) => Ok(stmt),
            Err(error) => {
                self.synchronize();
                Err(error)
            },
        }
    }

    /// One declaration, without the recovery from an error in it.
    pub fn declare(&mut self) -> (result: Result<Stmt, LoxResult>)
        requires
            old(self).wf(),
        ensures
            final(self).wf(),
            final(self).tokens() == old(self).tokens(),
            stmt_agrees(
                result,
                final(self).position() - old(self).position(),
                declare(old(self).tokens(), old(self).position()),
            ),
            result is Ok ==> final(self).position() > old(self).position(),
        decreases remaining(old(self).tokens(), old(self).position()), 195nat,
    {
        if self.is_match(TokenType::Var) {
            self.var_declaration()
        } else if self.is_match(TokenType::Func) {
            self.func_declaration()
        } else {
            self.statement()
        }
    }

    /// `funDecl        → "func" function ;`
    ///
    /// The parser stands behind the token that the rule begins with.
    pub fn func_declaration(&mut self) -> (result: Result<Stmt, LoxResult>)
        requires
            old(self).wf(),
            0 < old(self).position() <= old(self).tokens().len(),
        ensures
            final(self).wf(),
            final(self).tokens() == old(self).tokens(),
            stmt_agrees(
                result,
                final(self).position() - old(self).position(),
                function(old(self).tokens(), old(self).position(), "function"@),
            ),
        decreases remaining(old(self).tokens(), (old(self).position() - 1) as nat), 10nat,
    {
        self.function("function")
    }

    /// `function       → IDENTIFIER "(" parameters? ")" block ;`
    ///
    /// The parser stands behind the token that the rule begins with.
    pub fn function(&mut self, kind: &str) -> (result: Result<Stmt, LoxResult>)
        requires
            old(self).wf(),
            0 < old(self).position() <= old(self).tokens().len(),
        ensures
            final(self).wf(),
            final(self).tokens() == old(self).tokens(),
            stmt_agrees(
                result,
                final(self).position() - old(self).position(),
                function(old(self).tokens(), old(self).position(), kind@),
            ),
        decreases remaining(old(self).tokens(), (old(self).position() - 1) as nat), 9nat,
    {
        let name_message = String::from_str("expect a ").concat(kind).concat(" name");
        let name = match self.consume(TokenType::Identifier, name_message.as_str()) {
            Ok(token) => token,
            Err(error) => {
                return Err(error);
            },
        };
        let paren_message = String::from_str("expect `(` after ").concat(kind).concat(" name");
        match self.consume(TokenType::LeftParen, paren_message.as_str()) {
            Ok(_) => {},
            Err(error) => {
                return Err(error);
            },
        }
        let mut params: Vec<Token> = Vec::new();
        if !self.is_expect(TokenType::RightParen) {
            params = match self.parameters() {
                Ok(found) => found,
                Err(error) => {
                    return Err(error);
                },
            };
        } else {
            assert(views(params@) =~= Seq::<TokenView>::empty());
        }
        match self.consume(TokenType::RightParen, "expect `)` after parameters") {
            Ok(_) => {},
            Err(error) => {
                return Err(error);
            },
        }
        let brace_message = String::from_str("expect `{` before ").concat(kind).concat(" body");
        match self.consume(TokenType::LeftBrace, brace_message.as_str()) {
            Ok(_) => {},
            Err(error) => {
                return Err(error);
            },
        }
        match self.block() {
            Ok(body) => {
                let made = FunctionStmt { name, params: Rc::new(params), body: Rc::new(body) };
                proof {
                    lemma_function_view(made);
                }
                Ok(Stmt::Function(made))
            },
            Err(error) => Err(error),
        }
    }

    /// `parameters     → IDENTIFIER ( "," IDENTIFIER )* ;`
    pub fn parameters(&mut self) -> (result: Result<Vec<Token>, LoxResult>)
        requires
            old(self).wf(),
        ensures
            final(self).wf(),
            final(self).tokens() == old(self).tokens(),
            match parameters(old(self).tokens(), old(self).position()) {
                Outcome::Done { value, used } => result matches Ok(found) && views(found@) == value
                    && final(self).position() == old(self).position() + used,
                Outcome::Failed { error, used } => result matches Err(e) && e@ == error
                    && final(self).position() == old(self).position() + used,
            },
    {
        let ghost tokens = self.tokens();
        let ghost start = self.position();
        let mut params: Vec<Token> = Vec::new();
        match self.consume(TokenType::Identifier, "expect a param name") {
            Ok(first) => {
                proof {
                    lemma_views_push(params@, first);
                    assert(views(params@) =~= Seq::<TokenView>::empty());
                    assert(Seq::<TokenView>::empty().push(first@) =~= seq![first@]);
                }
                params.push(first);
            },
            Err(error) => {
                return Err(error);
            },
        }
        loop
            invariant
                self.wf(),
                self.tokens() == tokens,
                tokens == old(self).tokens(),
                start == old(self).position(),
                start <= self.position(),
                after(
                    parameters_rest(tokens, self.position(), views(params@)),
                    (self.position() - start) as nat,
                ) == parameters(tokens, start),
            ensures
                parameters(tokens, start) == (Outcome::Done {
                    value: views(params@),
                    used: (self.position() - start) as nat,
                }),
            decreases remaining(self.tokens(), self.position()),
        {
            let ghost at = self.position();
            let ghost seen = views(params@);
            if !self.is_match(TokenType::Comma) {
                break ;
            }
            if params.len() >= 255 {
                return Err(
                    LoxResult::parse_error(
                        self.peek_token(),
                        String::from_str("can't have more than 255 parameters"),
                    ),
                );
            }
            match self.consume(TokenType::Identifier, "expect a param name") {
                Ok(next) => {
                    proof {
                        let rest = parameters_rest(tokens, at + 2, seen.push(next@));
                        assert(parameters_rest(tokens, at, seen) == after(rest, 2));
                        lemma_after_after(rest, 2, (at - start) as nat);
                        lemma_views_push(params@, next);
                    }
                    params.push(next);
                },
                Err(error) => {
                    return Err(error);
                },
            }
        }
        Ok(params)
    }

    /// `varDecl        → "var" IDENTIFIER ( "=" expression )? ";"`
    ///
    /// The parser stands behind the token that the rule begins with.
    pub fn var_declaration(&mut self) -> (result: Result<Stmt, LoxResult>)
        requires
            old(self).wf(),
            0 < old(self).position() <= old(self).tokens().len(),
        ensures
            final(self).wf(),
            final(self).tokens() == old(self).tokens(),
            stmt_agrees(
                result,
                final(self).position() - old(self).position(),
                var_declaration(old(self).tokens(), old(self).position()),
            ),
        decreases remaining(old(self).tokens(), (old(self).position() - 1) as nat), 10nat,
    {
        let name = match self.consume(TokenType::Identifier, "expect variable name") {
            Ok(token) => token,
            Err(error) => {
                return Err(error);
            },
        };
        let initializer = if self.is_match(TokenType::Equal) {
            match self.expression() {
                Ok(expr) => Some(Rc::new(expr)),
                Err(error) => {
                    return Err(error);
                },
            }
        } else {
            None
        };
        match self.consume(TokenType::SemiColon, "expect `;` after variable declaration") {
            Ok(_) => Ok(Stmt::Var(VarStmt { name, initializer })),
            Err(error) => Err(error),
        }
    }

    /// `statement      → exprStmt | forStmt | ifStmt | printStmt | returnStmt | breakStmt | whileStmt | block ;`
    pub fn statement(&mut self) -> (result: Result<Stmt, LoxResult>)
        requires
            old(self).wf(),
        ensures
            final(self).wf(),
            final(self).tokens() == old(self).tokens(),
            stmt_agrees(
                result,
                final(self).position() - old(self).position(),
                statement(old(self).tokens(), old(self).position()),
            ),
            result is Ok ==> final(self).position() > old(self).position(),
        decreases remaining(old(self).tokens(), old(self).position()), 190nat,
    {
        if self.is_match(TokenType::Return) {
            self.return_statement()
        } else if self.is_match(TokenType::Break) {
            self.break_statement()
        } else if self.is_match(TokenType::For) {
            self.for_statement()
        } else if self.is_match(TokenType::While) {
            self.while_statement()
        } else if self.is_match(TokenType::If) {
            self.if_statement()
        } else if self.is_match(TokenType::LeftBrace) {
            match self.block() {
                Ok(statements) => {
                    let made = BlockStmt { statements: Rc::new(statements) };
                    proof {
                        lemma_block_view(made);
                    }
                    Ok(Stmt::Block(made))
                },
                Err(error) => Err(error),
            }
        } else if self.is_match(TokenType::Print) {
            self.print_statement()
        } else {
            self.expression_statement()
        }
    }

    /// `returnStmt     → "return" expression? ";" ;`
    ///
    /// The parser stands behind the token that the rule begins with.
    pub fn return_statement(&mut self) -> (result: Result<Stmt, LoxResult>)
        requires
            old(self).wf(),
            0 < old(self).position() <= old(self).tokens().len(),
        ensures
            final(self).wf(),
            final(self).tokens() == old(self).tokens(),
            stmt_agrees(
                result,
                final(self).position() - old(self).position(),
                return_statement(old(self).tokens(), old(self).position()),
            ),
        decreases remaining(old(self).tokens(), (old(self).position() - 1) as nat), 10nat,
    {
        let name = self.previous().unwrap();
        let value = if self.is_expect(TokenType::SemiColon) {
            None
        } else {
            match self.expression() {
                Ok(expr) => Some(Rc::new(expr)),
                Err(error) => {
                    return Err(error);
                },
            }
        };
        match self.consume(TokenType::SemiColon, "expect `;` after return") {
            Ok(_) => Ok(Stmt::Return(ReturnStmt { name, value })),
            Err(error) => Err(error),
        }
    }

    /// `breakStmt      → "break" ";" ;`
    pub fn break_statement(&mut self) -> (result: Result<Stmt, LoxResult>)
        requires
            old(self).wf(),
        ensures
            final(self).wf(),
            final(self).tokens() == old(self).tokens(),
            stmt_agrees(
                result,
                final(self).position() - old(self).position(),
                break_statement(old(self).tokens(), old(self).position()),
            ),
    {
        match self.consume(TokenType::SemiColon, "expect `;` after break statement") {
            Ok(_) => Ok(Stmt::Break(BreakStmt { u: 0 })),
            Err(error) => Err(error),
        }
    }

    /// The first clause of a `for`, with its `;`.
    ///
    /// The parser stands behind the token that the rule begins with.
    pub fn for_initializer(&mut self) -> (result: Result<Option<Stmt>, LoxResult>)
        requires
            old(self).wf(),
            0 < old(self).position() <= old(self).tokens().len(),
        ensures
            final(self).wf(),
            final(self).tokens() == old(self).tokens(),
            match for_initializer(old(self).tokens(), old(self).position()) {
                Outcome::Done { value, used } => result matches Ok(found) && optional_stmt_view(
                    found,
                ) == value && final(self).position() == old(self).position() + used,
                Outcome::Failed { error, used } => result matches Err(e) && e@ == error
                    && final(self).position() == old(self).position() + used,
            },
        decreases remaining(old(self).tokens(), (old(self).position() - 1) as nat), 8nat,
    {
        if self.is_match(TokenType::SemiColon) {
            Ok(None)
        } else if self.is_match(TokenType::Var) {
            match self.var_declaration() {
                Ok(stmt) => Ok(Some(stmt)),
                Err(error) => Err(error),
            }
        } else {
            match self.expression_statement() {
                Ok(stmt) => Ok(Some(stmt)),
                Err(error) => Err(error),
            }
        }
    }

    /// The second clause of a `for`, with its `;`.
    ///
    /// The parser stands behind the token that the rule begins with.
    pub fn for_condition(&mut self) -> (result: Result<Expr, LoxResult>)
        requires
            old(self).wf(),
            0 < old(self).position() <= old(self).tokens().len(),
        ensures
            final(self).wf(),
            final(self).tokens() == old(self).tokens(),
            expr_agrees(
                result,
                final(self).position() - old(self).position(),
                for_condition(old(self).tokens(), old(self).position()),
            ),
        decreases remaining(old(self).tokens(), (old(self).position() - 1) as nat), 8nat,
    {
        let condition = if self.is_expect(TokenType::SemiColon) {
            Expr::Literal(LiteralExpr { value: Object::True })
        } else {
            match self.expression() {
                Ok(expr) => expr,
                Err(error) => {
                    return Err(error);
                },
            }
        };
        match self.consume(TokenType::SemiColon, "expect `;` in `for` middle") {
            Ok(_) => Ok(condition),
            Err(error) => Err(error),
        }
    }

    /// The third clause of a `for`, with the closing `)`.
    ///
    /// The parser stands behind the token that the rule begins with.
    pub fn for_increment(&mut self) -> (result: Result<Option<Expr>, LoxResult>)
        requires
            old(self).wf(),
            0 < old(self).position() <= old(self).tokens().len(),
        ensures
            final(self).wf(),
            final(self).tokens() == old(self).tokens(),
            match for_increment(old(self).tokens(), old(self).position()) {
                Outcome::Done { value, used } => result matches Ok(found) && optional_expr_view(
                    found,
                ) == value && final(self).position() == old(self).position() + used,
                Outcome::Failed { error, used } => result matches Err(e) && e@ == error
                    && final(self).position() == old(self).position() + used,
            },
        decreases remaining(old(self).tokens(), (old(self).position() - 1) as nat), 8nat,
    {
        let increment = if self.is_expect(TokenType::RightParen) {
            None
        } else {
            match self.expression() {
                Ok(expr) => Some(expr),
                Err(error) => {
                    return Err(error);
                },
            }
        };
        match self.consume(TokenType::RightParen, "expect `)` after `for` end") {
            Ok(_) => Ok(increment),
            Err(error) => Err(error),
        }
    }

    /// Builds the loop that a `for` stands for.
    pub fn desugar_for(
        initializer: Option<Stmt>,
        condition: Expr,
        increment: Option<Expr>,
        body: Stmt,
    ) -> (made: Stmt)
        ensures
            made.view() == desugar_for(
                optional_stmt_view(initializer),
                condition.view(),
                optional_expr_view(increment),
                body.view(),
            ),
    {
        let mut body = body;
        if let Some(expression) = increment {
            let step = Stmt::Expression(ExpressionStmt { expression: Rc::new(expression) });
            let mut statements: Vec<Rc<Stmt>> = Vec::new();
            statements.push(Rc::new(body));
            statements.push(Rc::new(step));
            let made = BlockStmt { statements: Rc::new(statements) };
            proof {
                lemma_block_view(made);
                assert(stmt_views(made.statements@) =~= seq![body.view(), step.view()]);
            }
            body = Stmt::Block(made);
        }
        body = Stmt::While(WhileStmt { condition: Rc::new(condition), body: Rc::new(body) });
        if let Some(first) = initializer {
            let mut statements: Vec<Rc<Stmt>> = Vec::new();
            statements.push(Rc::new(first));
            statements.push(Rc::new(body));
            let made = BlockStmt { statements: Rc::new(statements) };
            proof {
                lemma_block_view(made);
                assert(stmt_views(made.statements@) =~= seq![first.view(), body.view()]);
            }
            body = Stmt::Block(made);
        }
        body
    }

    /// The parenthesised head of a `for`: its three clauses.
    ///
    /// The parser stands behind the token that the rule begins with.
    pub fn for_clauses(&mut self) -> (result: Result<(Option<Stmt>, Expr, Option<Expr>), LoxResult>)
        requires
            old(self).wf(),
            0 < old(self).position() <= old(self).tokens().len(),
        ensures
            final(self).wf(),
            final(self).tokens() == old(self).tokens(),
            match for_clauses(old(self).tokens(), old(self).position()) {
                Outcome::Done { value, used } => result matches Ok(found) && value == (ForClauses {
                    initializer: optional_stmt_view(found.0),
                    condition: found.1.view(),
                    increment: optional_expr_view(found.2),
                }) && final(self).position() == old(self).position() + used && used > 0,
                Outcome::Failed { error, used } => result matches Err(e) && e@ == error
                    && final(self).position() == old(self).position() + used,
            },
        decreases remaining(old(self).tokens(), (old(self).position() - 1) as nat), 9nat,
    {
        match self.consume(TokenType::LeftParen, "expect `(` after `for`") {
            Ok(_) => {},
            Err(error) => {
                return Err(error);
            },
        }
        let initializer = match self.for_initializer() {
            Ok(found) => found,
            Err(error) => {
                return Err(error);
            },
        };
        let condition = match self.for_condition() {
            Ok(found) => found,
            Err(error) => {
                return Err(error);
            },
        };
        let increment = match self.for_increment() {
            Ok(found) => found,
            Err(error) => {
                return Err(error);
            },
        };
        Ok((initializer, condition, increment))
    }

    /// `forStmt        → "for" "(" ( varDecl | exprStmt | ";" ) expression? ";" expression? ")" statement`
    ///
    /// The parser stands behind the token that the rule begins with.
    pub fn for_statement(&mut self) -> (result: Result<Stmt, LoxResult>)
        requires
            old(self).wf(),
            0 < old(self).position() <= old(self).tokens().len(),
        ensures
            final(self).wf(),
            final(self).tokens() == old(self).tokens(),
            stmt_agrees(
                result,
                final(self).position() - old(self).position(),
                for_statement(old(self).tokens(), old(self).position()),
            ),
        decreases remaining(old(self).tokens(), (old(self).position() - 1) as nat), 10nat,
    {
        let (initializer, condition, increment) = match self.for_clauses() {
            Ok(found) => found,
            Err(error) => {
                return Err(error);
            },
        };
        match self.statement() {
            Ok(body) => Ok(Self::desugar_for(initializer, condition, increment, body)),
            Err(error) => Err(error),
        }
    }

    /// A condition between parentheses.
    ///
    /// The parser stands behind the token that the rule begins with.
    pub fn condition(&mut self, open_message: &str, close_message: &str) -> (result: Result<
        Expr,
        LoxResult,
    >)
        requires
            old(self).wf(),
            0 < old(self).position() <= old(self).tokens().len(),
        ensures
            final(self).wf(),
            final(self).tokens() == old(self).tokens(),
            expr_agrees(
                result,
                final(self).position() - old(self).position(),
                condition(old(self).tokens(), old(self).position(), open_message@, close_message@),
            ),
            result is Ok ==> final(self).position() > old(self).position(),
        decreases remaining(old(self).tokens(), (old(self).position() - 1) as nat), 8nat,
    {
        match self.consume(TokenType::LeftParen, open_message) {
            Ok(_) => {},
            Err(error) => {
                return Err(error);
            },
        }
        let condition = match self.expression() {
            Ok(expr) => expr,
            Err(error) => {
                return Err(error);
            },
        };
        match self.consume(TokenType::RightParen, close_message) {
            Ok(_) => Ok(condition),
            Err(error) => Err(error),
        }
    }

    /// `whileStmt      → "while" "(" expression ")" statement ;`
    ///
    /// The parser stands behind the token that the rule begins with.
    pub fn while_statement(&mut self) -> (result: Result<Stmt, LoxResult>)
        requires
            old(self).wf(),
            0 < old(self).position() <= old(self).tokens().len(),
        ensures
            final(self).wf(),
            final(self).tokens() == old(self).tokens(),
            stmt_agrees(
                result,
                final(self).position() - old(self).position(),
                while_statement(old(self).tokens(), old(self).position()),
            ),
        decreases remaining(old(self).tokens(), (old(self).position() - 1) as nat), 10nat,
    {
        let condition = match self.condition(
            "expect `(` after while",
            "expect `)` after condition",
        ) {
            Ok(expr) => Rc::new(expr),
            Err(error) => {
                return Err(error);
            },
        };
        match self.statement() {
            Ok(body) => Ok(Stmt::While(WhileStmt { condition, body: Rc::new(body) })),
            Err(error) => Err(error),
        }
    }

    /// `ifStmt         → "if" "(" expression ")" statement ( "else" statement )?`
    ///
    /// The parser stands behind the token that the rule begins with.
    pub fn if_statement(&mut self) -> (result: Result<Stmt, LoxResult>)
        requires
            old(self).wf(),
            0 < old(self).position() <= old(self).tokens().len(),
        ensures
            final(self).wf(),
            final(self).tokens() == old(self).tokens(),
            stmt_agrees(
                result,
                final(self).position() - old(self).position(),
                if_statement(old(self).tokens(), old(self).position()),
            ),
        decreases remaining(old(self).tokens(), (old(self).position() - 1) as nat), 10nat,
    {
        let condition = match self.condition("expect `(` after if", "expect `)`") {
            Ok(expr) => Rc::new(expr),
            Err(error) => {
                return Err(error);
            },
        };
        let then_branch = match self.statement() {
            Ok(stmt) => Rc::new(stmt),
            Err(error) => {
                return Err(error);
            },
        };
        let else_branch = if self.is_match(TokenType::Else) {
            match self.statement() {
                Ok(stmt) => Some(Rc::new(stmt)),
                Err(error) => {
                    return Err(error);
                },
            }
        } else {
            None
        };
        Ok(Stmt::If(IfStmt { condition, then_branch, else_branch }))
    }

    /// `block          → "{" declaration* "}" ;`
    ///
    /// The parser stands behind the token that the rule begins with.
    pub fn block(&mut self) -> (result: Result<Vec<Rc<Stmt>>, LoxResult>)
        requires
            old(self).wf(),
            0 < old(self).position() <= old(self).tokens().len(),
        ensures
            final(self).wf(),
            final(self).tokens() == old(self).tokens(),
            match block(old(self).tokens(), old(self).position()) {
                Outcome::Done { value, used } => result matches Ok(found) && stmt_views(found@)
                    == value && final(self).position() == old(self).position() + used,
                Outcome::Failed { error, used } => result matches Err(e) && e@ == error
                    && final(self).position() == old(self).position() + used,
            },
        decreases remaining(old(self).tokens(), (old(self).position() - 1) as nat), 10nat,
    {
        let ghost tokens = self.tokens();
        let ghost start = self.position();
        let mut statements: Vec<Rc<Stmt>> = Vec::new();
        assert(stmt_views(statements@) =~= Seq::<StmtView>::empty());
        while !self.is_expect(TokenType::RightBrace) && !self.is_at_end()
            invariant
                self.wf(),
                self.tokens() == tokens,
                tokens == old(self).tokens(),
                start == old(self).position(),
                0 < start <= self.position(),
                after(
                    block_rest(tokens, self.position(), stmt_views(statements@)),
                    (self.position() - start) as nat,
                ) == block_rest(tokens, start, Seq::empty()),
            decreases remaining(self.tokens(), self.position()),
        {
            let ghost at = self.position();
            let ghost seen = stmt_views(statements@);
            match self.declaration() {
                Ok(stmt) => {
                    proof {
                        let used = (self.position() - at) as nat;
                        let rest = block_rest(tokens, at + used, seen.push(stmt.view()));
                        assert(block_rest(tokens, at, seen) == after(rest, used));
                        lemma_after_after(rest, used, (at - start) as nat);
                        lemma_stmt_views_push(statements@, Rc::new(stmt));
                    }
                    statements.push(Rc::new(stmt));
                },
                Err(error) => {
                    return Err(error);
                },
            }
        }
        match self.consume(TokenType::RightBrace, "expected `}`") {
            Ok(_) => Ok(statements),
            Err(error) => Err(error),
        }
    }

    /// `printStmt      → "print" expression ";"`
    ///
    /// The parser stands behind the token that the rule begins with.
    pub fn print_statement(&mut self) -> (result: Result<Stmt, LoxResult>)
        requires
            old(self).wf(),
            0 < old(self).position() <= old(self).tokens().len(),
        ensures
            final(self).wf(),
            final(self).tokens() == old(self).tokens(),
            stmt_agrees(
                result,
                final(self).position() - old(self).position(),
                print_statement(old(self).tokens(), old(self).position()),
            ),
        decreases remaining(old(self).tokens(), (old(self).position() - 1) as nat), 10nat,
    {
        let expression = match self.expression() {
            Ok(expr) => Rc::new(expr),
            Err(error) => {
                return Err(error);
            },
        };
        match self.consume(TokenType::SemiColon, "expect `;` after expression") {
            Ok(_) => Ok(Stmt::Print(PrintStmt { expression })),
            Err(error) => Err(error),
        }
    }

    /// `exprStmt       → expression ";"`
    pub fn expression_statement(&mut self) -> (result: Result<Stmt, LoxResult>)
        requires
            old(self).wf(),
        ensures
            final(self).wf(),
            final(self).tokens() == old(self).tokens(),
            stmt_agrees(
                result,
                final(self).position() - old(self).position(),
                expression_statement(old(self).tokens(), old(self).position()),
            ),
            result is Ok ==> final(self).position() > old(self).position(),
        decreases remaining(old(self).tokens(), old(self).position()), 150nat,
    {
        let expression = match self.expression() {
            Ok(expr) => Rc::new(expr),
            Err(error) => {
                return Err(error);
            },
        };
        match self.consume(TokenType::SemiColon, "expect `;` after expression") {
            Ok(_) => Ok(Stmt::Expression(ExpressionStmt { expression })),
            Err(error) => Err(error),
        }
    }
}

} // verus!
