//! The scanner: source text to tokens.
//!
//! A number token carries its digits as lexeme and no literal: what double
//! the digits stand for is not computed here.
use vstd::prelude::*;
use crate::error::LoxError;
use crate::error::LoxErrorView;
use crate::text::text_of;
use crate::token::lemma_views_push;
use crate::token::views;
use crate::token::eof_view;
use crate::token::literal_view;
use crate::token::Token;
use crate::token::TokenView;
use crate::token_type::TokenType;
use crate::value::object::Object;
use crate::value::object::ObjectView;

verus! {

/// One of `0` to `9`.
pub open spec fn is_digit(c: char) -> bool {
    '0' <= c && c <= '9'
}

/// A letter of the Latin alphabet, or `_`.
pub open spec fn is_alpha(c: char) -> bool {
    ('a' <= c && c <= 'z') || ('A' <= c && c <= 'Z') || c == '_'
}

/// What a word goes on with: a letter, `_` or a digit.
pub open spec fn is_alpha_numeric(c: char) -> bool {
    is_alpha(c) || is_digit(c)
}

/// The number of line breaks among the first `upto` characters.
pub open spec fn newlines_before(source: Seq<char>, upto: int) -> nat
    decreases upto,
{
    if upto <= 0 || upto > source.len() {
        0
    } else {
        newlines_before(source, upto - 1) + if source[upto - 1] == '\n' {
            1nat
        } else {
            0nat
        }
    }
}

/// The line, counted from 1, that position `at` lies on; the largest
/// line that can be counted where there are more.
pub open spec fn line_at(source: Seq<char>, at: int) -> usize {
    if 1 + newlines_before(source, at) <= usize::MAX {
        (1 + newlines_before(source, at)) as usize
    } else {
        usize::MAX
    }
}

/// The first position at or after `from` that holds no digit.
pub open spec fn digits_end(source: Seq<char>, from: int) -> int
    decreases source.len() - from,
{
    if 0 <= from < source.len() && is_digit(source[from]) {
        digits_end(source, from + 1)
    } else {
        from
    }
}

/// The first position at or after `from` that holds neither a letter, a
/// digit nor an underscore.
pub open spec fn word_end(source: Seq<char>, from: int) -> int
    decreases source.len() - from,
{
    if 0 <= from < source.len() && is_alpha_numeric(source[from]) {
        word_end(source, from + 1)
    } else {
        from
    }
}

/// The first position at or after `from` that holds `stop`, or the end of
/// the source where there is none.
pub open spec fn next_of(source: Seq<char>, from: int, stop: char) -> int
    decreases source.len() - from,
{
    if 0 <= from < source.len() && source[from] != stop {
        next_of(source, from + 1, stop)
    } else {
        from
    }
}

/// Where the number that starts at `start` ends: after its digits, and
/// after a point and more digits where a digit follows the point.
pub open spec fn number_end(source: Seq<char>, start: int) -> int {
    let whole = digits_end(source, start);
    if whole + 1 < source.len() && source[whole] == '.' && is_digit(source[whole + 1]) {
        digits_end(source, whole + 1)
    } else {
        whole
    }
}

/// The reserved words.
pub open spec fn keyword(text: Seq<char>) -> Option<TokenType> {
    if text == "and"@ {
        Some(TokenType::And)
    } else if text == "break"@ {
        Some(TokenType::Break)
    } else if text == "class"@ {
        Some(TokenType::Class)
    } else if text == "else"@ {
        Some(TokenType::Else)
    } else if text == "false"@ {
        Some(TokenType::False)
    } else if text == "for"@ {
        Some(TokenType::For)
    } else if text == "func"@ {
        Some(TokenType::Func)
    } else if text == "if"@ {
        Some(TokenType::If)
    } else if text == "nil"@ {
        Some(TokenType::Nil)
    } else if text == "or"@ {
        Some(TokenType::Or)
    } else if text == "print"@ {
        Some(TokenType::Print)
    } else if text == "return"@ {
        Some(TokenType::Return)
    } else if text == "super"@ {
        Some(TokenType::Super)
    } else if text == "this"@ {
        Some(TokenType::This)
    } else if text == "true"@ {
        Some(TokenType::True)
    } else if text == "var"@ {
        Some(TokenType::Var)
    } else if text == "while"@ {
        Some(TokenType::While)
    } else {
        None
    }
}

/// The token that a character makes by itself, whatever follows it.
pub open spec fn single(c: char) -> Option<TokenType> {
    if c == '(' {
        Some(TokenType::LeftParen)
    } else if c == ')' {
        Some(TokenType::RightParen)
    } else if c == '{' {
        Some(TokenType::LeftBrace)
    } else if c == '}' {
        Some(TokenType::RightBrace)
    } else if c == ',' {
        Some(TokenType::Comma)
    } else if c == '.' {
        Some(TokenType::Dot)
    } else if c == '-' {
        Some(TokenType::Minus)
    } else if c == '+' {
        Some(TokenType::Plus)
    } else if c == ';' {
        Some(TokenType::SemiColon)
    } else if c == '*' {
        Some(TokenType::Star)
    } else {
        None
    }
}

/// For a character that merges with a following `=`: the token of the
/// pair where `merged`, else the token that the character makes alone.
pub open spec fn paired(c: char, merged: bool) -> Option<TokenType> {
    if c == '!' {
        Some(if merged { TokenType::BangEqual } else { TokenType::Bang })
    } else if c == '=' {
        Some(if merged { TokenType::EqualEqual } else { TokenType::Equal })
    } else if c == '<' {
        Some(if merged { TokenType::LessEqual } else { TokenType::Less })
    } else if c == '>' {
        Some(if merged { TokenType::GreaterEqual } else { TokenType::Greater })
    } else {
        None
    }
}

/// What one step of scanning finds at a position.
pub enum Lexeme {
    /// White space, a line break or a comment: no token.
    Skipped { next: int },
    /// A token that ends before `next`.
    Found { tk_type: TokenType, literal: Option<ObjectView>, next: int },
    Failed { error: LoxErrorView },
}

/// What the scanner finds at `start`, a position inside the source.
pub open spec fn lexeme_at(source: Seq<char>, start: int) -> Lexeme {
    let c = source[start];
    let follows = |d: char| start + 1 < source.len() && source[start + 1] == d;
    if c == ' ' || c == '\r' || c == '\t' || c == '\n' {
        Lexeme::Skipped { next: start + 1 }
    } else if c == '"' {
        let close = next_of(source, start + 1, '"');
        if close >= source.len() {
            Lexeme::Failed {
                error: LoxErrorView {
                    line: line_at(source, source.len() as int),
                    message: "Unterminated string"@,
                },
            }
        } else {
            Lexeme::Found {
                tk_type: TokenType::String,
                literal: Some(ObjectView::Str(source.subrange(start + 1, close))),
                next: close + 1,
            }
        }
    } else if single(c) is Some {
        Lexeme::Found { tk_type: single(c)->0, literal: None, next: start + 1 }
    } else if paired(c, follows('=')) is Some {
        Lexeme::Found {
            tk_type: paired(c, follows('='))->0,
            literal: None,
            next: if follows('=') { start + 2 } else { start + 1 },
        }
    } else if c == '/' {
        if follows('/') {
            Lexeme::Skipped { next: next_of(source, start + 2, '\n') }
        } else {
            Lexeme::Found { tk_type: TokenType::Slash, literal: None, next: start + 1 }
        }
    } else if is_digit(c) {
        Lexeme::Found { tk_type: TokenType::Number, literal: None, next: number_end(source, start) }
    } else if is_alpha(c) {
        let end = word_end(source, start);
        let tk_type = match keyword(source.subrange(start, end)) {
            Some(reserved) => reserved,
            None => TokenType::Identifier,
        };
        Lexeme::Found { tk_type, literal: None, next: end }
    } else {
        Lexeme::Failed {
            error: LoxErrorView {
                line: line_at(source, start),
                message: "unmatched token type"@,
            },
        }
    }
}

/// The token that lies between `start` and `next`.
pub open spec fn token_between(
    source: Seq<char>,
    start: int,
    next: int,
    tk_type: TokenType,
    literal: Option<ObjectView>,
) -> TokenView {
    TokenView {
        tk_type,
        lexeme: source.subrange(start, next),
        literal,
        line: line_at(source, next),
    }
}

/// A run of digits ends at or behind its start, inside the source.
pub proof fn lemma_digits_end(source: Seq<char>, from: int)
    requires
        0 <= from <= source.len(),
    ensures
        from <= digits_end(source, from) <= source.len(),
    decreases source.len() - from,
{
    if from < source.len() && is_digit(source[from]) {
        lemma_digits_end(source, from + 1);
    }
}

/// A word ends at or behind its start, inside the source.
pub proof fn lemma_word_end(source: Seq<char>, from: int)
    requires
        0 <= from <= source.len(),
    ensures
        from <= word_end(source, from) <= source.len(),
    decreases source.len() - from,
{
    if from < source.len() && is_alpha_numeric(source[from]) {
        lemma_word_end(source, from + 1);
    }
}

/// The search for a character ends at or behind its start, inside the
/// source.
pub proof fn lemma_next_of(source: Seq<char>, from: int, stop: char)
    requires
        0 <= from <= source.len(),
    ensures
        from <= next_of(source, from, stop) <= source.len(),
    decreases source.len() - from,
{
    if from < source.len() && source[from] != stop {
        lemma_next_of(source, from + 1, stop);
    }
}

/// Every lexeme ends after its first character and inside the source.
pub proof fn lemma_lexeme_advances(source: Seq<char>, start: int)
    requires
        0 <= start < source.len(),
    ensures
        match lexeme_at(source, start) {
            Lexeme::Skipped { next } => start < next <= source.len(),
            Lexeme::Found { next, .. } => start < next <= source.len(),
            Lexeme::Failed { .. } => true,
        },
{
    lemma_next_of(source, start + 1, '"');
    if start + 2 <= source.len() {
        lemma_next_of(source, start + 2, '\n');
    }
    lemma_digits_end(source, start);
    lemma_digits_end(source, start + 1);
    let whole = digits_end(source, start);
    if whole + 1 <= source.len() {
        lemma_digits_end(source, whole + 1);
    }
    lemma_word_end(source, start);
    lemma_word_end(source, start + 1);
}

/// The tokens of the source from `from` on, closed by the end-of-input
/// token on the last line, or the first error.
pub open spec fn scan_from(source: Seq<char>, from: int) -> Result<Seq<TokenView>, LoxErrorView>
    decreases source.len() - from,
{
    if from < 0 || from >= source.len() {
        Ok(seq![eof_view(line_at(source, source.len() as int))])
    } else {
        proof {
            lemma_lexeme_advances(source, from);
        }
        match lexeme_at(source, from) {
            Lexeme::Skipped { next } => scan_from(source, next),
            Lexeme::Found { tk_type, literal, next } => match scan_from(source, next) {
                Ok(rest) => Ok(seq![token_between(source, from, next, tk_type, literal)] + rest),
                Err(error) => Err(error),
            },
            Lexeme::Failed { error } => Err(error),
        }
    }
}

/// The tokens of a source text.
pub open spec fn scan(source: Seq<char>) -> Result<Seq<TokenView>, LoxErrorView> {
    scan_from(source, 0)
}


/// `found` followed by what comes after it.
pub open spec fn prepend(found: Seq<TokenView>, rest: Result<Seq<TokenView>, LoxErrorView>) -> Result<
    Seq<TokenView>,
    LoxErrorView,
> {
    match rest {
        Ok(tokens) => Ok(found + tokens),
        Err(error) => Err(error),
    }
}

/// The scanner: the source, the tokens found, the start of the lexeme being
/// scanned, the position behind what was scanned, and the line there.
pub struct Scanner {
    source: Vec<char>,
    tokens: Vec<Token>,
    current: usize,
    start: usize,
    line: usize,
}

impl Scanner {
    /// The text being scanned.
    pub closed spec fn source(&self) -> Seq<char> {
        self.source@
    }

    /// How many characters have been scanned.
    pub closed spec fn position(&self) -> int {
        self.current as int
    }

    /// The tokens found so far and not yet handed out.
    pub closed spec fn scanned(&self) -> Seq<TokenView> {
        views(self.tokens@)
    }

    /// The line counter agrees with the position.
    pub closed spec fn wf(&self) -> bool {
        &&& self.source@.len() <= usize::MAX
        &&& self.start <= self.current <= self.source@.len()
        &&& self.line == line_at(self.source@, self.current as int)
    }

    /// A scanner at the start of `source`.
    pub fn new(source: String) -> (scanner: Self)
        ensures
            scanner.wf(),
            scanner.source() == source@,
            scanner.position() == 0,
            scanner.scanned() == Seq::<TokenView>::empty(),
    {
        let mut chars: Vec<char> = Vec::new();
        for c in it: source.as_str().chars()
            invariant
                it.seq() == source@,
                chars@ == it.seq().take(it.index() as int),
        {
            chars.push(c);
        }
        assert(chars@.len() <= usize::MAX) by {
            vstd::std_specs::vec::axiom_spec_len(&chars);
        }
        let scanner = Self { source: chars, tokens: Vec::new(), current: 0, start: 0, line: 1 };
        assert(views(scanner.tokens@) =~= Seq::<TokenView>::empty());
        scanner
    }

    /// Scans the rest of the source and hands out all tokens found, closed
    /// by the end-of-input token. The first error ends the scan.
    pub fn scan_tokens(&mut self) -> (result: Result<Vec<Token>, LoxError>)
        requires
            old(self).wf(),
        ensures
            final(self).wf(),
            final(self).source() == old(self).source(),
            match prepend(old(self).scanned(), scan_from(old(self).source(), old(self).position())) {
                Ok(tokens) => result matches Ok(found) && views(found@) == tokens
                    && final(self).position() == old(self).source().len()
                    && final(self).scanned().len() == 0,
                Err(error) => result matches Err(e) && e@ == error,
            },
    {
        let ghost goal = prepend(old(self).scanned(), scan_from(self.source@, self.current as int));
        while !self.is_at_end()
            invariant
                self.wf(),
                self.source@ == old(self).source@,
                prepend(views(self.tokens@), scan_from(self.source@, self.current as int)) == goal,
                goal == prepend(
                    old(self).scanned(),
                    scan_from(old(self).source(), old(self).position()),
                ),
            decreases self.source@.len() - self.current,
        {
            self.start = self.current;
            proof {
                lemma_lexeme_advances(self.source@, self.current as int);
            }
            let ghost before = views(self.tokens@);
            let ghost at = self.current as int;
            match self.scan_token() {
                Ok(_) => {
                    proof {
                        match lexeme_at(self.source@, at) {
                            Lexeme::Found { tk_type, literal, next } => {
                                let token = token_between(self.source@, at, next, tk_type, literal);
                                match scan_from(self.source@, next) {
                                    Ok(rest) => {
                                        assert(before.push(token) + rest =~= before + (seq![token]
                                            + rest));
                                    },
                                    Err(_) => {},
                                }
                            },
                            _ => {},
                        }
                    }
                },
                Err(error) => {
                    assert(scan_from(self.source@, at) == Err::<Seq<TokenView>, LoxErrorView>(
                        error@,
                    ));
                    return Err(error);
                },
            }
        }
        self.tokens.push(Token::eof(self.line));
        proof {
            let ghost sofar = self.tokens@.drop_last();
            assert(self.tokens@ == sofar.push(self.tokens@.last()));
            lemma_views_push(sofar, self.tokens@.last());
            assert(views(sofar).push(self.tokens@.last()@) =~= views(sofar) + seq![
                self.tokens@.last()@,
            ]);
        }
        let mut found: Vec<Token> = Vec::new();
        std::mem::swap(&mut self.tokens, &mut found);
        assert(views(self.tokens@) =~= Seq::<TokenView>::empty());
        Ok(found)
    }

    /// Whether the whole source has been scanned.
    pub fn is_at_end(&self) -> (ended: bool)
        ensures
            ended == (self.position() >= self.source().len()),
    {
        self.current >= self.source.len()
    }

    /// Scans one lexeme, which starts at the current position.
    fn scan_token(&mut self) -> (result: Result<(), LoxError>)
        requires
            old(self).wf(),
            old(self).start == old(self).current,
            old(self).current < old(self).source@.len(),
        ensures
            final(self).wf(),
            final(self).source@ == old(self).source@,
            match lexeme_at(old(self).source@, old(self).current as int) {
                Lexeme::Skipped { next } => result is Ok && final(self).current == next
                    && final(self).tokens@ == old(self).tokens@,
                Lexeme::Found { tk_type, literal, next } => result is Ok && final(self).current
                    == next && views(final(self).tokens@) == views(old(self).tokens@).push(
                    token_between(
                        old(self).source@,
                        old(self).current as int,
                        next,
                        tk_type,
                        literal,
                    ),
                ),
                Lexeme::Failed { error } => result matches Err(e) && e@ == error,
            },
    {
        proof {
            lemma_lexeme_advances(self.source@, self.current as int);
        }
        let c = self.source[self.current];
        self.current += 1;
        if c == ' ' || c == '\r' || c == '\t' {
            Ok(())
        } else if c == '\n' {
            if self.line < usize::MAX {
                self.line += 1;
            }
            Ok(())
        } else if c == '"' {
            self.string()
        } else if c == '(' {
            self.add_token(TokenType::LeftParen);
            Ok(())
        } else if c == ')' {
            self.add_token(TokenType::RightParen);
            Ok(())
        } else if c == '{' {
            self.add_token(TokenType::LeftBrace);
            Ok(())
        } else if c == '}' {
            self.add_token(TokenType::RightBrace);
            Ok(())
        } else if c == ',' {
            self.add_token(TokenType::Comma);
            Ok(())
        } else if c == '.' {
            self.add_token(TokenType::Dot);
            Ok(())
        } else if c == '-' {
            self.add_token(TokenType::Minus);
            Ok(())
        } else if c == '+' {
            self.add_token(TokenType::Plus);
            Ok(())
        } else if c == ';' {
            self.add_token(TokenType::SemiColon);
            Ok(())
        } else if c == '*' {
            self.add_token(TokenType::Star);
            Ok(())
        } else if c == '!' {
            let tk_type = if self.is_match('=') {
                TokenType::BangEqual
            } else {
                TokenType::Bang
            };
            self.add_token(tk_type);
            Ok(())
        } else if c == '=' {
            let tk_type = if self.is_match('=') {
                TokenType::EqualEqual
            } else {
                TokenType::Equal
            };
            self.add_token(tk_type);
            Ok(())
        } else if c == '<' {
            let tk_type = if self.is_match('=') {
                TokenType::LessEqual
            } else {
                TokenType::Less
            };
            self.add_token(tk_type);
            Ok(())
        } else if c == '>' {
            let tk_type = if self.is_match('=') {
                TokenType::GreaterEqual
            } else {
                TokenType::Greater
            };
            self.add_token(tk_type);
            Ok(())
        } else if c == '/' {
            if self.is_match('/') {
                self.comment();
            } else {
                self.add_token(TokenType::Slash);
            }
            Ok(())
        } else if Self::is_digit(Some(c)) {
            self.number();
            Ok(())
        } else if Self::is_alpha_numeric(Some(c)) {
            self.identifier();
            Ok(())
        } else {
            Err(LoxError::error(self.line, String::from_str("unmatched token type")))
        }
    }

    fn peek(&self) -> (c: Option<char>)
        ensures
            c == (if self.current < self.source@.len() {
                Some(self.source@[self.current as int])
            } else {
                None
            }),
    {
        if self.current < self.source.len() {
            Some(self.source[self.current])
        } else {
            None
        }
    }

    fn peek_next(&self) -> (c: Option<char>)
        ensures
            c == (if self.current + 1 < self.source@.len() {
                Some(self.source@[self.current + 1])
            } else {
                None
            }),
    {
        if self.current < self.source.len() && self.current + 1 < self.source.len() {
            Some(self.source[self.current + 1])
        } else {
            None
        }
    }

    /// The rest of a comment: up to the end of the line.
    fn comment(&mut self)
        requires
            old(self).wf(),
        ensures
            final(self).wf(),
            final(self).current == next_of(old(self).source@, old(self).current as int, '\n'),
            final(self).source@ == old(self).source@,
            final(self).tokens@ == old(self).tokens@,
            final(self).start == old(self).start,
    {
        loop
            invariant
                self.wf(),
                self.source@ == old(self).source@,
                self.tokens@ == old(self).tokens@,
                self.start == old(self).start,
                next_of(self.source@, self.current as int, '\n') == next_of(
                    old(self).source@,
                    old(self).current as int,
                    '\n',
                ),
            ensures
                self.current == next_of(old(self).source@, old(self).current as int, '\n'),
            decreases self.source@.len() - self.current,
        {
            match self.peek() {
                Some(c) => {
                    if c != '\n' {
                        self.advance();
                    } else {
                        break ;
                    }
                },
                None => {
                    break ;
                },
            }
        }
    }

    /// The rest of a string literal, whose opening quote stands at `start`.
    fn string(&mut self) -> (result: Result<(), LoxError>)
        requires
            old(self).wf(),
            old(self).current == old(self).start + 1,
            old(self).source@[old(self).start as int] == '"',
        ensures
            final(self).wf(),
            final(self).source@ == old(self).source@,
            ({
                let source = old(self).source@;
                let start = old(self).start as int;
                let close = next_of(source, start + 1, '"');
                if close >= source.len() {
                    result matches Err(e) && e@ == (LoxErrorView {
                        line: line_at(source, source.len() as int),
                        message: "Unterminated string"@,
                    })
                } else {
                    result is Ok && final(self).current == close + 1 && views(final(self).tokens@)
                        == views(old(self).tokens@).push(
                        token_between(
                            source,
                            start,
                            close + 1,
                            TokenType::String,
                            Some(ObjectView::Str(source.subrange(start + 1, close))),
                        ),
                    )
                }
            }),
    {
        proof {
            lemma_next_of(self.source@, self.current as int, '"');
        }
        loop
            invariant
                self.wf(),
                self.source@ == old(self).source@,
                self.tokens@ == old(self).tokens@,
                self.start == old(self).start,
                self.start < self.current,
                next_of(self.source@, self.current as int, '"') == next_of(
                    old(self).source@,
                    old(self).current as int,
                    '"',
                ),
            ensures
                self.current == next_of(old(self).source@, old(self).current as int, '"'),
                self.current < self.source@.len() ==> self.source@[self.current as int] == '"',
            decreases self.source@.len() - self.current,
        {
            match self.peek() {
                Some(c) => {
                    if c == '"' {
                        break ;
                    }
                    self.current += 1;
                    if c == '\n' && self.line < usize::MAX {
                        self.line += 1;
                    }
                },
                None => {
                    break ;
                },
            }
        }
        if self.is_at_end() {
            return Err(LoxError::error(self.line, String::from_str("Unterminated string")));
        }
        self.advance();
        let literal = text_of(&self.source, self.start + 1, self.current - 1);
        self.add_token_object(TokenType::String, Some(Object::Str(literal)));
        Ok(())
    }

    /// The rest of a number, whose first digit stands at `start`.
    fn number(&mut self)
        requires
            old(self).wf(),
            old(self).current == old(self).start + 1,
            is_digit(old(self).source@[old(self).start as int]),
        ensures
            final(self).wf(),
            final(self).source@ == old(self).source@,
            final(self).current == number_end(old(self).source@, old(self).start as int),
            views(final(self).tokens@) == views(old(self).tokens@).push(
                token_between(
                    old(self).source@,
                    old(self).start as int,
                    final(self).current as int,
                    TokenType::Number,
                    None,
                ),
            ),
    {
        self.check_number();
        if Some('.') == self.peek() && Self::is_digit(self.peek_next()) {
            self.advance();
            self.check_number();
        }
        self.add_token_object(TokenType::Number, None);
    }

    /// The rest of a word, whose first character stands at `start`.
    fn identifier(&mut self)
        requires
            old(self).wf(),
            old(self).current == old(self).start + 1,
            is_alpha_numeric(old(self).source@[old(self).start as int]),
        ensures
            final(self).wf(),
            final(self).source@ == old(self).source@,
            final(self).current == word_end(old(self).source@, old(self).start as int),
            views(final(self).tokens@) == views(old(self).tokens@).push(
                token_between(
                    old(self).source@,
                    old(self).start as int,
                    final(self).current as int,
                    match keyword(
                        old(self).source@.subrange(
                            old(self).start as int,
                            final(self).current as int,
                        ),
                    ) {
                        Some(reserved) => reserved,
                        None => TokenType::Identifier,
                    },
                    None,
                ),
            ),
    {
        while Self::is_alpha_numeric(self.peek())
            invariant
                self.wf(),
                self.source@ == old(self).source@,
                self.tokens@ == old(self).tokens@,
                self.start == old(self).start,
                word_end(self.source@, self.current as int) == word_end(
                    old(self).source@,
                    old(self).current as int,
                ),
            decreases self.source@.len() - self.current,
        {
            self.advance();
        }
        let text = text_of(&self.source, self.start, self.current);
        if let Some(tk_type) = Self::keyword(&text) {
            self.add_token(tk_type);
        } else {
            self.add_token(TokenType::Identifier);
        }
    }

    /// Passes over digits.
    fn check_number(&mut self)
        requires
            old(self).wf(),
        ensures
            final(self).wf(),
            final(self).source@ == old(self).source@,
            final(self).tokens@ == old(self).tokens@,
            final(self).start == old(self).start,
            final(self).current == digits_end(old(self).source@, old(self).current as int),
    {
        while Self::is_digit(self.peek())
            invariant
                self.wf(),
                self.source@ == old(self).source@,
                self.tokens@ == old(self).tokens@,
                self.start == old(self).start,
                digits_end(self.source@, self.current as int) == digits_end(
                    old(self).source@,
                    old(self).current as int,
                ),
            decreases self.source@.len() - self.current,
        {
            self.advance();
        }
    }

    pub fn is_digit(ch: Option<char>) -> (digit: bool)
        ensures
            digit == (ch matches Some(c) && is_digit(c)),
    {
        if let Some(c) = ch {
            '0' <= c && c <= '9'
        } else {
            false
        }
    }

    pub fn is_alpha_numeric(ch: Option<char>) -> (word: bool)
        ensures
            word == (ch matches Some(c) && is_alpha_numeric(c)),
    {
        if let Some(c) = ch {
            ('a' <= c && c <= 'z') || ('A' <= c && c <= 'Z') || c == '_' || ('0' <= c && c <= '9')
        } else {
            false
        }
    }

    pub fn keyword(text: &String) -> (reserved: Option<TokenType>)
        ensures
            reserved == keyword(text@),
    {
        if *text == String::from_str("and") {
            Some(TokenType::And)
        } else if *text == String::from_str("break") {
            Some(TokenType::Break)
        } else if *text == String::from_str("class") {
            Some(TokenType::Class)
        } else if *text == String::from_str("else") {
            Some(TokenType::Else)
        } else if *text == String::from_str("false") {
            Some(TokenType::False)
        } else if *text == String::from_str("for") {
            Some(TokenType::For)
        } else if *text == String::from_str("func") {
            Some(TokenType::Func)
        } else if *text == String::from_str("if") {
            Some(TokenType::If)
        } else if *text == String::from_str("nil") {
            Some(TokenType::Nil)
        } else if *text == String::from_str("or") {
            Some(TokenType::Or)
        } else if *text == String::from_str("print") {
            Some(TokenType::Print)
        } else if *text == String::from_str("return") {
            Some(TokenType::Return)
        } else if *text == String::from_str("super") {
            Some(TokenType::Super)
        } else if *text == String::from_str("this") {
            Some(TokenType::This)
        } else if *text == String::from_str("true") {
            Some(TokenType::True)
        } else if *text == String::from_str("var") {
            Some(TokenType::Var)
        } else if *text == String::from_str("while") {
            Some(TokenType::While)
        } else {
            None
        }
    }

    /// Passes over the next character where it is `expected`.
    fn is_match(&mut self, expected: char) -> (matched: bool)
        requires
            old(self).wf(),
            expected != '\n',
        ensures
            final(self).wf(),
            matched == (old(self).current < old(self).source@.len() && old(self).source@[old(
                self,
            ).current as int] == expected),
            final(self).current == old(self).current + if matched {
                1int
            } else {
                0int
            },
            final(self).source@ == old(self).source@,
            final(self).tokens@ == old(self).tokens@,
            final(self).start == old(self).start,
    {
        if self.is_at_end() {
            false
        } else if self.peek() != Some(expected) {
            false
        } else {
            self.current += 1;
            true
        }
    }

    fn add_token(&mut self, tk_type: TokenType)
        requires
            old(self).wf(),
        ensures
            final(self).wf(),
            final(self).source@ == old(self).source@,
            final(self).current == old(self).current,
            final(self).start == old(self).start,
            views(final(self).tokens@) == views(old(self).tokens@).push(
                token_between(
                    old(self).source@,
                    old(self).start as int,
                    old(self).current as int,
                    tk_type,
                    None,
                ),
            ),
    {
        self.add_token_object(tk_type, None);
    }

    /// Adds the token that lies between `start` and the current position.
    fn add_token_object(&mut self, tk_type: TokenType, literal: Option<Object>)
        requires
            old(self).wf(),
        ensures
            final(self).wf(),
            final(self).source@ == old(self).source@,
            final(self).current == old(self).current,
            final(self).start == old(self).start,
            views(final(self).tokens@) == views(old(self).tokens@).push(
                token_between(
                    old(self).source@,
                    old(self).start as int,
                    old(self).current as int,
                    tk_type,
                    literal_view(literal),
                ),
            ),
    {
        let lexeme = text_of(&self.source, self.start, self.current);
        let token = Token::new(tk_type, lexeme, literal, self.line);
        proof {
            lemma_views_push(self.tokens@, token);
        }
        self.tokens.push(token);
    }

    /// Passes over one character that is no line break.
    fn advance(&mut self) -> (c: Option<char>)
        requires
            old(self).wf(),
            old(self).current < old(self).source@.len(),
            old(self).source@[old(self).current as int] != '\n',
        ensures
            final(self).wf(),
            c == Some(old(self).source@[old(self).current as int]),
            final(self).current == old(self).current + 1,
            final(self).source@ == old(self).source@,
            final(self).tokens@ == old(self).tokens@,
            final(self).start == old(self).start,
    {
        let result = self.peek();
        self.current += 1;
        result
    }
}


/// Every scan that succeeds ends with the end-of-input token, which is on
/// the last line of the source.
pub proof fn lemma_scan_ends_with_eof(source: Seq<char>, from: int)
    ensures
        scan_from(source, from) matches Ok(tokens) ==> tokens.len() > 0 && tokens.last() == eof_view(
            line_at(source, source.len() as int),
        ),
    decreases source.len() - from,
{
    if 0 <= from < source.len() {
        lemma_lexeme_advances(source, from);
        match lexeme_at(source, from) {
            Lexeme::Skipped { next } => {
                lemma_scan_ends_with_eof(source, next);
            },
            Lexeme::Found { tk_type, literal, next } => {
                lemma_scan_ends_with_eof(source, next);
            },
            Lexeme::Failed { error } => {},
        }
    }
}

/// A number literal: digits, and behind them a point and more digits or
/// nothing.
pub open spec fn is_number_literal(text: Seq<char>, whole: int) -> bool {
    &&& 0 < whole <= text.len()
    &&& forall|i: int| 0 <= i < whole ==> is_digit(#[trigger] text[i])
    &&& whole < text.len() ==> {
        &&& text[whole] == '.'
        &&& whole + 1 < text.len()
        &&& forall|i: int| whole < i < text.len() ==> is_digit(#[trigger] text[i])
    }
}

/// A run of digits ends where the next character is no digit.
pub proof fn lemma_digits_run(source: Seq<char>, from: int, end: int)
    requires
        0 <= from <= end <= source.len(),
        forall|i: int| from <= i < end ==> is_digit(#[trigger] source[i]),
        end < source.len() ==> !is_digit(source[end]),
    ensures
        digits_end(source, from) == end,
    decreases end - from,
{
    if from < end {
        assert(is_digit(source[from]));
        lemma_digits_run(source, from + 1, end);
    }
}

/// A text without a line break is all on the first line.
pub proof fn lemma_one_line(source: Seq<char>, upto: int)
    requires
        forall|i: int| 0 <= i < upto && i < source.len() ==> #[trigger] source[i] != '\n',
    ensures
        newlines_before(source, upto) == 0,
    decreases upto,
{
    if 0 < upto <= source.len() {
        lemma_one_line(source, upto - 1);
        assert(source[upto - 1] != '\n');
    }
}

/// The scanner makes one token of a number literal: it is of kind
/// `Number`, its lexeme is the literal, all of it, and it carries no
/// value.
pub proof fn lemma_scan_number_literal(text: Seq<char>, whole: int)
    requires
        is_number_literal(text, whole),
    ensures
        scan(text) == Ok::<Seq<TokenView>, LoxErrorView>(
            seq![
                TokenView { tk_type: TokenType::Number, lexeme: text, literal: None, line: 1 },
                eof_view(1),
            ],
        ),
{
    let end = text.len() as int;
    assert(is_digit(text[0]));
    assert forall|i: int| 0 <= i < end && i < text.len() implies #[trigger] text[i] != '\n' by {
        if i != whole {
            assert(is_digit(text[i]));
        }
    }
    lemma_one_line(text, end);
    if whole < end {
        assert(!is_digit(text[whole]));
        lemma_digits_run(text, 0, whole);
        assert(is_digit(text[whole + 1]));
        lemma_digits_run(text, whole + 1, end);
    } else {
        lemma_digits_run(text, 0, end);
    }
    assert(number_end(text, 0) == end);
    assert(lexeme_at(text, 0) == (Lexeme::Found {
        tk_type: TokenType::Number,
        literal: None,
        next: end,
    }));
    assert(text.subrange(0, end) =~= text);
    assert(scan_from(text, end) == Ok::<Seq<TokenView>, LoxErrorView>(seq![eof_view(1)]));
    reveal_with_fuel(scan_from, 2);
    assert(seq![token_between(text, 0, end, TokenType::Number, None)] + seq![eof_view(1)]
        =~= seq![
        TokenView { tk_type: TokenType::Number, lexeme: text, literal: None, line: 1 },
        eof_view(1),
    ]);
}

} // verus!
