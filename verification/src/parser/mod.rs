//! The recursive-descent parser.
use vstd::prelude::*;
use crate::error::LoxResult;
use crate::error::LoxResultView;
use crate::expr::Expr;
use crate::expr::ExprView;
use crate::parser::grammar::at_end;
use crate::parser::grammar::consume;
use crate::parser::grammar::expect;
use crate::parser::grammar::parse_error;
use crate::parser::grammar::lemma_failure_advances;
use crate::parser::grammar::program;
use crate::parser::grammar::recover;
use crate::parser::grammar::remaining;
use crate::parser::grammar::Recovered;
use crate::parser::grammar::synchronize;
use crate::parser::grammar::synchronize_from;
use crate::parser::grammar::token_at;
use crate::parser::grammar::Outcome;
use crate::stmt::lemma_program_view_push;
use crate::stmt::program_view;
use crate::stmt::Stmt;
use crate::stmt::StmtView;
use crate::token::views;
use crate::token::Token;
use crate::token::TokenView;
use crate::token_type::TokenType;

pub mod grammar;
pub mod parser_expr;
pub mod parser_stmt;
pub mod shape;

verus! {

/// `result`, reached after passing `moved` tokens, is what `outcome` says.
pub open spec fn expr_agrees(result: Result<Expr, LoxResult>, moved: int, outcome: Outcome<ExprView>) -> bool {
    match outcome {
        Outcome::Done { value, used } => result matches Ok(e) && e.view() == value && moved == used,
        Outcome::Failed { error, used } => result matches Err(e) && e@ == error && moved == used,
    }
}

/// `result`, reached after passing `moved` tokens, is what `outcome` says.
pub open spec fn stmt_agrees(result: Result<Stmt, LoxResult>, moved: int, outcome: Outcome<StmtView>) -> bool {
    match outcome {
        Outcome::Done { value, used } => result matches Ok(s) && s.view() == value && moved == used,
        Outcome::Failed { error, used } => result matches Err(e) && e@ == error && moved == used,
    }
}

/// The views of a run of errors, in order.
pub open spec fn error_views(errors: Seq<LoxResult>) -> Seq<LoxResultView> {
    Seq::new(errors.len(), |i: int| errors[i]@)
}

/// The parser: the tokens and the position in them.
pub struct Parser {
    tokens: Vec<Token>,
    current: usize,
}

impl Parser {
    /// The tokens being parsed.
    pub closed spec fn tokens(&self) -> Seq<TokenView> {
        views(self.tokens@)
    }

    /// How many tokens have been passed.
    pub closed spec fn position(&self) -> nat {
        self.current as nat
    }

    /// The position lies inside the tokens or just behind them.
    pub closed spec fn wf(&self) -> bool {
        self.current <= self.tokens@.len()
    }

    /// A parser that stands before the first of its own copies of the tokens.
    pub fn new(tokens: &Vec<Token>) -> (parser: Self)
        ensures
            parser.wf(),
            parser.tokens() == views(tokens@),
            parser.position() == 0,
    {
        let mut own_tokens: Vec<Token> = Vec::new();
        let mut i: usize = 0;
        while i < tokens.len()
            invariant
                i <= tokens@.len(),
                own_tokens@ == tokens@.take(i as int),
            decreases tokens@.len() - i,
        {
            own_tokens.push(tokens[i].clone());
            assert(tokens@.take(i + 1) == tokens@.take(i as int).push(tokens@[i as int]));
            i += 1;
        }
        assert(tokens@.take(tokens@.len() as int) == tokens@);
        Self { tokens: own_tokens, current: 0 }
    }

    /// Parses declarations up to the end of input. The first error ends the
    /// call, after the parser has passed on to the next statement boundary:
    /// a further call goes on from there.
    pub fn parse(&mut self) -> (result: Result<Vec<Stmt>, LoxResult>)
        requires
            old(self).wf(),
        ensures
            final(self).wf(),
            final(self).tokens() == old(self).tokens(),
            match program(old(self).tokens(), old(self).position()) {
                Outcome::Done { value, used } => result matches Ok(statements) && program_view(
                    statements@,
                ) == value && final(self).position() == old(self).position() + used,
                Outcome::Failed { error, used } => result matches Err(e) && e@ == error
                    && final(self).position() == old(self).position() + used,
            },
    {
        self.program()
    }

    /// Parses declarations up to the end of input and passes over the
    /// errors: gives the statements that parsed and the errors that were
    /// found, each after the parser has passed on to the next statement
    /// boundary.
    pub fn parse_all(&mut self) -> (result: (Vec<Stmt>, Vec<LoxResult>))
        requires
            old(self).wf(),
        ensures
            final(self).wf(),
            final(self).tokens() == old(self).tokens(),
            ({
                let recovered = recover(
                    old(self).tokens(),
                    old(self).position(),
                    Recovered { statements: Seq::empty(), errors: Seq::empty(), next: 0 },
                );
                &&& program_view(result.0@) == recovered.statements
                &&& error_views(result.1@) == recovered.errors
                &&& final(self).position() == recovered.next
            }),
    {
        let ghost tokens = self.tokens();
        let ghost goal = recover(
            tokens,
            self.position(),
            Recovered { statements: Seq::empty(), errors: Seq::empty(), next: 0 },
        );
        let mut statements: Vec<Stmt> = Vec::new();
        let mut errors: Vec<LoxResult> = Vec::new();
        assert(program_view(statements@) =~= Seq::<StmtView>::empty());
        assert(error_views(errors@) =~= Seq::<LoxResultView>::empty());
        while !self.is_at_end()
            invariant
                self.wf(),
                self.tokens() == tokens,
                recover(
                    tokens,
                    self.position(),
                    Recovered {
                        statements: program_view(statements@),
                        errors: error_views(errors@),
                        next: 0,
                    },
                ) == goal,
            decreases remaining(self.tokens(), self.position()),
        {
            proof {
                lemma_failure_advances(tokens, self.position());
            }
            match self.declaration() {
                Ok(stmt) => {
                    proof {
                        lemma_program_view_push(statements@, stmt);
                    }
                    statements.push(stmt);
                },
                Err(error) => {
                    proof {
                        assert(error_views(errors@.push(error)) =~= error_views(errors@).push(
                            error@,
                        ));
                    }
                    errors.push(error);
                },
            }
        }
        (statements, errors)
    }

    fn peek(&self) -> (token: Option<Token>)
        ensures
            match token {
                Some(t) => self.current < self.tokens@.len() && t == self.tokens@[self.current as int],
                None => self.current >= self.tokens@.len(),
            },
    {
        if self.current < self.tokens.len() {
            Some(self.tokens[self.current].clone())
        } else {
            None
        }
    }

    /// The token at the current position; past the last token, an
    /// end-of-input token.
    fn peek_token(&self) -> (token: Token)
        ensures
            token@ == token_at(self.tokens(), self.position()),
    {
        match self.peek() {
            Some(token) => token,
            None => Token::eof(0),
        }
    }

    fn previous(&self) -> (token: Option<Token>)
        ensures
            match token {
                Some(t) => 0 < self.current <= self.tokens@.len() && t == self.tokens@[self.current
                    - 1],
                None => !(0 < self.current <= self.tokens@.len()),
            },
    {
        if 0 < self.current && self.current <= self.tokens.len() {
            Some(self.tokens[self.current - 1].clone())
        } else {
            None
        }
    }

    /// Passes the next token where it is of the given kind.
    fn is_match(&mut self, tk_type: TokenType) -> (matched: bool)
        requires
            old(self).wf(),
        ensures
            final(self).wf(),
            final(self).tokens@ == old(self).tokens@,
            matched == expect(old(self).tokens(), old(self).position(), tk_type),
            final(self).current == old(self).current + if matched {
                1int
            } else {
                0int
            },
    {
        if self.is_expect(tk_type) {
            self.advance();
            true
        } else {
            false
        }
    }

    fn is_expect(&self, token_type: TokenType) -> (expected: bool)
        ensures
            expected == expect(self.tokens(), self.position(), token_type),
    {
        if self.current < self.tokens.len() {
            let kind = self.tokens[self.current].tk_type;
            kind != TokenType::Eof && kind == token_type
        } else {
            false
        }
    }

    fn is_at_end(&self) -> (ended: bool)
        ensures
            ended == at_end(self.tokens(), self.position()),
    {
        if self.current < self.tokens.len() {
            self.tokens[self.current].tk_type == TokenType::Eof
        } else {
            true
        }
    }

    /// Passes one token, unless all have been passed.
    fn advance(&mut self)
        requires
            old(self).wf(),
        ensures
            final(self).wf(),
            final(self).tokens@ == old(self).tokens@,
            final(self).current == if old(self).current < old(self).tokens@.len() {
                old(self).current + 1
            } else {
                old(self).current as int
            },
    {
        if self.current < self.tokens.len() {
            self.current += 1;
        }
    }

    /// Takes the next token where it is of the given kind; else fails with
    /// `message` at the token that stands there.
    fn consume(&mut self, tk_type: TokenType, message: &str) -> (result: Result<Token, LoxResult>)
        requires
            old(self).wf(),
        ensures
            final(self).wf(),
            final(self).tokens@ == old(self).tokens@,
            match consume(old(self).tokens(), old(self).position(), tk_type, message@) {
                Outcome::Done { value, used } => result matches Ok(t) && t@ == value
                    && final(self).current == old(self).current + 1,
                Outcome::Failed { error, used } => result matches Err(e) && e@ == error
                    && final(self).current == old(self).current,
            },
    {
        if self.is_expect(tk_type) {
            self.advance();
            return Ok(self.previous().unwrap());
        }
        let token = self.peek_token();
        Err(LoxResult::parse_error(token, String::from_str(message)))
    }

    /// After an error: passes one token, then every token up to the next
    /// statement boundary, which is behind a `;` or before a keyword that
    /// begins a statement.
    pub fn synchronize(&mut self)
        requires
            old(self).wf(),
        ensures
            final(self).wf(),
            final(self).tokens() == old(self).tokens(),
            final(self).position() == synchronize(old(self).tokens(), old(self).position()),
            final(self).position() >= old(self).position(),
    {
        self.advance();
        while !self.is_at_end()
            invariant
                self.wf(),
                self.tokens@ == old(self).tokens@,
                self.current > 0 || self.current >= self.tokens@.len(),
                self.current >= old(self).current,
                synchronize_from(self.tokens(), self.position()) == synchronize(
                    old(self).tokens(),
                    old(self).position(),
                ),
            decreases self.tokens@.len() - self.current,
        {
            if self.previous().unwrap().tk_type == TokenType::SemiColon {
                return ;
            }
            match self.peek().unwrap().tk_type {
                TokenType::Class
                | TokenType::Func
                | TokenType::Var
                | TokenType::For
                | TokenType::If
                | TokenType::While
                | TokenType::Print
                | TokenType::Return => {
                    return ;
                },
                _ => (),
            }
            self.advance();
        }
    }
}

} // verus!
