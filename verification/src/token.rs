//! Tokens.
use vstd::prelude::*;
use crate::value::object::Object;
use crate::value::object::ObjectView;
use crate::token_type::TokenType;

verus! {

/// A token: its kind, its text in the source, the value it carries if it is
/// a literal, and the line it is on.
#[derive(Debug)]
pub struct Token {
    pub tk_type: TokenType,
    pub lexeme: String,
    pub literal: Option<Object>,
    pub line: usize,
}

/// A token with its text as characters and its value by its view.
pub struct TokenView {
    pub tk_type: TokenType,
    pub lexeme: Seq<char>,
    pub literal: Option<ObjectView>,
    pub line: usize,
}

/// The view of an optional value.
pub open spec fn literal_view(literal: Option<Object>) -> Option<ObjectView> {
    match literal {
        Some(value) => Some(value@),
        None => None,
    }
}

/// The end-of-input token of a source whose last line is `line`.
pub open spec fn eof_view(line: usize) -> TokenView {
    TokenView { tk_type: TokenType::Eof, lexeme: Seq::empty(), literal: None, line }
}

impl View for Token {
    type V = TokenView;

    open spec fn view(&self) -> TokenView {
        TokenView {
            tk_type: self.tk_type,
            lexeme: self.lexeme@,
            literal: literal_view(self.literal),
            line: self.line,
        }
    }
}

impl Clone for Token {
    fn clone(&self) -> (copy: Self)
        ensures
            copy == *self,
    {
        let literal = match &self.literal {
            Some(value) => Some(value.clone()),
            None => None,
        };
        Token { tk_type: self.tk_type, lexeme: self.lexeme.clone(), literal, line: self.line }
    }
}

impl Token {
    /// A token of these parts.
    pub fn new(tk_type: TokenType, lexeme: String, literal: Option<Object>, line: usize) -> (token:
        Self)
        ensures
            token == (Token { tk_type, lexeme, literal, line }),
    {
        Self { tk_type, lexeme, literal, line }
    }

    /// The end-of-input token on line `line`.
    pub fn eof(line: usize) -> (token: Self)
        ensures
            token@ == eof_view(line),
    {
        Self { tk_type: TokenType::Eof, lexeme: String::new(), literal: None, line }
    }

    /// Whether the token is of kind `expect`.
    pub fn is(&self, expect: TokenType) -> (same: bool)
        ensures
            same == (self.tk_type == expect),
    {
        self.tk_type == expect
    }

    /// A copy of the lexeme.
    pub fn as_string(&self) -> (text: String)
        ensures
            text == self.lexeme,
    {
        self.lexeme.clone()
    }
}


/// The views of a run of tokens, in order.
pub open spec fn views(tokens: Seq<Token>) -> Seq<TokenView> {
    Seq::new(tokens.len(), |i: int| tokens[i]@)
}

/// The views of a run that was extended by one token.
pub proof fn lemma_views_push(tokens: Seq<Token>, token: Token)
    ensures
        views(tokens.push(token)) == views(tokens).push(token@),
{
    assert(views(tokens.push(token)) =~= views(tokens).push(token@));
}

} // verus!
