//! Errors of scanning, parsing and running, and the two control signals
//! that travel the same way.
use vstd::prelude::*;
use crate::text::decimal;
use crate::text::decimal_text;
use crate::token::Token;
use crate::token::TokenView;
use crate::token_type::TokenType;
use crate::value::object::Object;
use crate::value::object::ObjectView;

verus! {

/// A scanning error: the line it was found on and what is wrong there.
#[derive(Debug)]
pub struct LoxError {
    pub line: usize,
    pub message: String,
}

/// A scanning error with its message as characters.
pub struct LoxErrorView {
    pub line: usize,
    pub message: Seq<char>,
}

impl View for LoxError {
    type V = LoxErrorView;

    open spec fn view(&self) -> LoxErrorView {
        LoxErrorView { line: self.line, message: self.message@ }
    }
}

/// The line that reports a scanning error at `loc`.
pub open spec fn scan_report(error: LoxErrorView, loc: Seq<char>) -> Seq<char> {
    "[line: "@ + decimal(error.line as nat) + "], Error "@ + loc + ": "@ + error.message
}

impl LoxError {
    /// An error on line `line`.
    pub fn error(line: usize, message: String) -> (error: Self)
        ensures
            error == (LoxError { line, message }),
    {
        Self { line, message }
    }

    /// The text of the report; printing it is left to the caller.
    pub fn report(&self, loc: &str) -> (text: String)
        ensures
            text@ == scan_report(self@, loc@),
    {
        let mut text = String::from_str("[line: ");
        text.append(decimal_text(self.line).as_str());
        text.append("], Error ");
        text.append(loc);
        text.append(": ");
        text.append(self.message.as_str());
        text
    }
}

/// What travels up from a failing or jumping statement: an error, or one
/// of the signals `Break` and `Return`.
#[derive(Debug)]
pub enum LoxResult {
    ParseError { token: Token, message: String },
    RuntimeError { token: Token, message: String },
    LoxError { line: usize, message: String },
    SystemError { message: String },
    Break,
    Return { value: Object },
}

/// What travels up, with tokens, texts and values by their views.
pub enum LoxResultView {
    ParseError { token: TokenView, message: Seq<char> },
    RuntimeError { token: TokenView, message: Seq<char> },
    LoxError { line: usize, message: Seq<char> },
    SystemError { message: Seq<char> },
    Break,
    Return { value: ObjectView },
}

impl View for LoxResult {
    type V = LoxResultView;

    open spec fn view(&self) -> LoxResultView {
        match self {
            LoxResult::ParseError { token, message } => LoxResultView::ParseError {
                token: token@,
                message: message@,
            },
            LoxResult::RuntimeError { token, message } => LoxResultView::RuntimeError {
                token: token@,
                message: message@,
            },
            LoxResult::LoxError { line, message } => LoxResultView::LoxError {
                line: *line,
                message: message@,
            },
            LoxResult::SystemError { message } => LoxResultView::SystemError { message: message@ },
            LoxResult::Break => LoxResultView::Break,
            LoxResult::Return { value } => LoxResultView::Return { value: value@ },
        }
    }
}

/// Where a token-tagged report says the error is: `at end` for the
/// end-of-input token, else the lexeme between backquotes.
pub open spec fn token_place(token: TokenView) -> Seq<char> {
    if token.tk_type == TokenType::Eof {
        "[line: "@ + decimal(token.line as nat) + " at end], "@
    } else {
        "[line: "@ + decimal(token.line as nat) + " at `"@ + token.lexeme + "`], "@
    }
}

/// The line that reports `result` at `loc`; the two signals have none.
pub open spec fn report_text(result: LoxResultView, loc: Seq<char>) -> Option<Seq<char>> {
    match result {
        LoxResultView::LoxError { line, message } => Some(
            "[line: "@ + decimal(line as nat) + "], "@ + loc + ": "@ + message,
        ),
        LoxResultView::ParseError { token, message } => Some(
            token_place(token) + loc + ": "@ + message,
        ),
        LoxResultView::RuntimeError { token, message } => Some(
            token_place(token) + loc + ": "@ + message,
        ),
        LoxResultView::SystemError { message } => Some(loc + ": "@ + message),
        LoxResultView::Break => None,
        LoxResultView::Return { value } => None,
    }
}

fn place_text(token: &Token) -> (text: String)
    ensures
        text@ == token_place(token@),
{
    let mut text = String::from_str("[line: ");
    text.append(decimal_text(token.line).as_str());
    if token.is(TokenType::Eof) {
        text.append(" at end], ");
    } else {
        text.append(" at `");
        text.append(token.lexeme.as_str());
        text.append("`], ");
    }
    text
}

impl LoxResult {
    /// An error that is known by its line only.
    pub fn error(line: usize, message: String) -> (result: Self)
        ensures
            result == (LoxResult::LoxError { line, message }),
    {
        LoxResult::LoxError { line, message }
    }

    /// An error of the parser at `token`.
    pub fn parse_error(token: Token, message: String) -> (result: Self)
        ensures
            result == (LoxResult::ParseError { token, message }),
    {
        LoxResult::ParseError { token, message }
    }

    /// An error of the interpreter at a copy of `token`.
    pub fn runtime_error(token: &Token, message: String) -> (result: Self)
        ensures
            result == (LoxResult::RuntimeError { token: *token, message }),
    {
        LoxResult::RuntimeError { token: token.clone(), message }
    }

    /// A failure of what stands behind the interpreter.
    pub fn system_error(message: String) -> (result: Self)
        ensures
            result == (LoxResult::SystemError { message }),
    {
        LoxResult::SystemError { message }
    }

    /// The signal that carries a returned value.
    pub fn return_error(value: Object) -> (result: Self)
        ensures
            result == (LoxResult::Return { value }),
    {
        LoxResult::Return { value }
    }

    /// The text of the report, where there is one; printing it is left to
    /// the caller.
    pub fn report(&self, loc: &str) -> (text: Option<String>)
        ensures
            match text {
                Some(line) => report_text(self@, loc@) == Some(line@),
                None => report_text(self@, loc@) is None,
            },
    {
        match self {
            LoxResult::LoxError { line, message } => {
                let mut text = String::from_str("[line: ");
                text.append(decimal_text(*line).as_str());
                text.append("], ");
                text.append(loc);
                text.append(": ");
                text.append(message.as_str());
                Some(text)
            },
            LoxResult::ParseError { token, message } => {
                let mut text = place_text(token);
                text.append(loc);
                text.append(": ");
                text.append(message.as_str());
                Some(text)
            },
            LoxResult::RuntimeError { token, message } => {
                let mut text = place_text(token);
                text.append(loc);
                text.append(": ");
                text.append(message.as_str());
                Some(text)
            },
            LoxResult::SystemError { message } => {
                let mut text = String::from_str(loc);
                text.append(": ");
                text.append(message.as_str());
                Some(text)
            },
            _ => None,
        }
    }
}

} // verus!
