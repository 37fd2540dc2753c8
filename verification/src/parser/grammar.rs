//! The grammar, as functions from a token sequence and a position to what
//! the parser makes of the tokens from there on.
//!
//! ```text
//! program     -> declaration* EOF
//! declaration -> "var" varDecl | "func" function | statement
//! statement   -> return | break | for | while | if | block | print | exprStmt
//! expression  -> assignment
//! assignment  -> IDENTIFIER "=" assignment | logic_or
//! logic_or -> logic_and -> equality -> comparison -> term -> factor -> unary
//! unary       -> ( "!" | "-" ) unary | call
//! call        -> primary ( "(" arguments? ")" )*
//! ```
use vstd::prelude::*;
use crate::error::LoxResultView;
use crate::expr::ExprView;
use crate::stmt::StmtView;
use crate::token::eof_view;
use crate::token::TokenView;
use crate::token_type::TokenType;
use crate::value::object::ObjectView;

verus! {

/// What a grammar rule makes of the tokens from some position on: a value
/// and the number of tokens it took, or an error and the number of tokens
/// passed when it was found.
pub enum Outcome<T> {
    Done { value: T, used: nat },
    Failed { error: LoxResultView, used: nat },
}

/// The same outcome, seen from `by` tokens earlier.
pub open spec fn after<T>(outcome: Outcome<T>, by: nat) -> Outcome<T> {
    match outcome {
        Outcome::Done { value, used } => Outcome::Done { value, used: used + by },
        Outcome::Failed { error, used } => Outcome::Failed { error, used: used + by },
    }
}

/// Looking back twice is looking back once, by the sum.
pub proof fn lemma_after_after<T>(outcome: Outcome<T>, first: nat, second: nat)
    ensures
        after(after(outcome, first), second) == after(outcome, first + second),
{
}

/// The outcome with its value changed by `f`.
pub open spec fn map_done<T, U>(outcome: Outcome<T>, f: spec_fn(T) -> U) -> Outcome<U> {
    match outcome {
        Outcome::Done { value, used } => Outcome::Done { value: f(value), used },
        Outcome::Failed { error, used } => Outcome::Failed { error, used },
    }
}

/// How many tokens lie at and after `pos`.
pub open spec fn remaining(tokens: Seq<TokenView>, pos: nat) -> nat {
    if pos < tokens.len() {
        (tokens.len() - pos) as nat
    } else {
        0
    }
}

/// The token at `pos`; past the last token, an end-of-input token.
pub open spec fn token_at(tokens: Seq<TokenView>, pos: nat) -> TokenView {
    if pos < tokens.len() {
        tokens[pos as int]
    } else {
        eof_view(0)
    }
}

/// No token is left at `pos` but the end of input.
pub open spec fn at_end(tokens: Seq<TokenView>, pos: nat) -> bool {
    token_at(tokens, pos).tk_type == TokenType::Eof
}

/// The token at `pos` is of kind `kind`, and is not the end of input.
pub open spec fn expect(tokens: Seq<TokenView>, pos: nat, kind: TokenType) -> bool {
    !at_end(tokens, pos) && token_at(tokens, pos).tk_type == kind
}

/// An error of the parser at `token`.
pub open spec fn parse_error(token: TokenView, message: Seq<char>) -> LoxResultView {
    LoxResultView::ParseError { token, message }
}

/// Takes the token at `pos` where it is of kind `kind`; else fails there
/// with `message`, taking nothing.
pub open spec fn consume(tokens: Seq<TokenView>, pos: nat, kind: TokenType, message: Seq<char>) -> Outcome<
    TokenView,
> {
    if expect(tokens, pos, kind) {
        Outcome::Done { value: token_at(tokens, pos), used: 1 }
    } else {
        Outcome::Failed { error: parse_error(token_at(tokens, pos), message), used: 0 }
    }
}

/// `outcome`, which began at `pos`, followed by a token of kind `kind`.
pub open spec fn closed_by<T>(
    outcome: Outcome<T>,
    tokens: Seq<TokenView>,
    pos: nat,
    kind: TokenType,
    message: Seq<char>,
) -> Outcome<T> {
    match outcome {
        Outcome::Done { value, used } => {
            if expect(tokens, pos + used, kind) {
                Outcome::Done { value, used: used + 1 }
            } else {
                Outcome::Failed {
                    error: parse_error(token_at(tokens, pos + used), message),
                    used,
                }
            }
        },
        failed => failed,
    }
}

/// The binary levels of the precedence ladder, loosest first: 0 `or`,
/// 1 `and`, 2 equality, 3 comparison, 4 term, 5 factor.
pub open spec fn operator_of(level: nat, kind: TokenType) -> bool {
    if level == 0 {
        kind == TokenType::Or
    } else if level == 1 {
        kind == TokenType::And
    } else if level == 2 {
        kind == TokenType::BangEqual || kind == TokenType::EqualEqual
    } else if level == 3 {
        kind == TokenType::Greater || kind == TokenType::GreaterEqual || kind == TokenType::Less
            || kind == TokenType::LessEqual
    } else if level == 4 {
        kind == TokenType::Plus || kind == TokenType::Minus
    } else if level == 5 {
        kind == TokenType::Star || kind == TokenType::Slash
    } else {
        false
    }
}

/// The node of a binary level: `Logical` for `or` and `and`, else `Binary`.
pub open spec fn join(level: nat, left: ExprView, operator: TokenView, right: ExprView) -> ExprView {
    if level <= 1 {
        ExprView::Logical { left: Box::new(left), operator, right: Box::new(right) }
    } else {
        ExprView::Binary { left: Box::new(left), operator, right: Box::new(right) }
    }
}

/// The place of a ladder level in the order of the grammar's rules.
pub open spec fn rung(level: nat) -> nat {
    if level >= 6 {
        20
    } else {
        (32 - 2 * level) as nat
    }
}

/// An expression: the loosest rule, assignment.
pub open spec fn expression(tokens: Seq<TokenView>, pos: nat) -> Outcome<ExprView>
    decreases remaining(tokens, pos), 40nat,
{
    assignment(tokens, pos)
}

/// Right-associative; the target must have parsed as a bare variable,
/// else the `=` is an error and what follows it is not looked at.
pub open spec fn assignment(tokens: Seq<TokenView>, pos: nat) -> Outcome<ExprView>
    decreases remaining(tokens, pos), 39nat,
{
    match ladder(tokens, pos, 0) {
        Outcome::Done { value: target, used } => {
            if expect(tokens, pos + used, TokenType::Equal) {
                match target {
                    ExprView::Variable { name } => after(
                        map_done(
                            assignment(tokens, pos + used + 1),
                            |value: ExprView| ExprView::Assign { name, value: Box::new(value) },
                        ),
                        used + 1,
                    ),
                    _ => Outcome::Failed {
                        error: parse_error(token_at(tokens, pos + used), "invalid assign"@),
                        used: used + 1,
                    },
                }
            } else {
                Outcome::Done { value: target, used }
            }
        },
        failed => failed,
    }
}

/// One level of the ladder: an operand of the next tighter level, then
/// any number of operators of this level, each with such an operand,
/// folded to the left. Above the last binary level stands `unary`.
pub open spec fn ladder(tokens: Seq<TokenView>, pos: nat, level: nat) -> Outcome<ExprView>
    decreases remaining(tokens, pos), rung(level),
{
    if level >= 6 {
        unary(tokens, pos)
    } else {
        match ladder(tokens, pos, level + 1) {
            Outcome::Done { value: left, used } => after(
                ladder_rest(tokens, pos + used, level, left),
                used,
            ),
            failed => failed,
        }
    }
}

/// The operators of `level` that follow the operand `left`, with their
/// operands.
pub open spec fn ladder_rest(tokens: Seq<TokenView>, pos: nat, level: nat, left: ExprView) -> Outcome<
    ExprView,
>
    decreases remaining(tokens, pos), 0nat,
{
    if level < 6 && !at_end(tokens, pos) && operator_of(level, token_at(tokens, pos).tk_type) {
        match ladder(tokens, pos + 1, level + 1) {
            Outcome::Done { value: right, used } => after(
                ladder_rest(
                    tokens,
                    pos + 1 + used,
                    level,
                    join(level, left, token_at(tokens, pos), right),
                ),
                1 + used,
            ),
            failed => after(failed, 1),
        }
    } else {
        Outcome::Done { value: left, used: 0 }
    }
}

/// Any number of `!` and `-`, then a call; the operators apply from the
/// innermost outward.
pub open spec fn unary(tokens: Seq<TokenView>, pos: nat) -> Outcome<ExprView>
    decreases remaining(tokens, pos), 10nat,
{
    if expect(tokens, pos, TokenType::Bang) || expect(tokens, pos, TokenType::Minus) {
        after(
            map_done(
                unary(tokens, pos + 1),
                |right: ExprView|
                    ExprView::Unary { operator: token_at(tokens, pos), right: Box::new(right) },
            ),
            1,
        )
    } else {
        call(tokens, pos)
    }
}

/// A primary, and behind it any number of argument lists.
pub open spec fn call(tokens: Seq<TokenView>, pos: nat) -> Outcome<ExprView>
    decreases remaining(tokens, pos), 9nat,
{
    match primary(tokens, pos) {
        Outcome::Done { value: callee, used } => after(call_rest(tokens, pos + used, callee), used),
        failed => failed,
    }
}

/// The argument lists that follow `callee`: each makes a call of what
/// stands before it.
pub open spec fn call_rest(tokens: Seq<TokenView>, pos: nat, callee: ExprView) -> Outcome<ExprView>
    decreases remaining(tokens, pos), 0nat,
{
    if expect(tokens, pos, TokenType::LeftParen) {
        match finish_call(tokens, pos + 1, callee) {
            Outcome::Done { value: made, used } => after(
                call_rest(tokens, pos + 1 + used, made),
                1 + used,
            ),
            failed => after(failed, 1),
        }
    } else {
        Outcome::Done { value: callee, used: 0 }
    }
}

/// The arguments and the closing parenthesis of a call, after its `(`.
pub open spec fn finish_call(tokens: Seq<TokenView>, pos: nat, callee: ExprView) -> Outcome<ExprView>
    decreases remaining(tokens, pos), 50nat,
{
    let listed = if expect(tokens, pos, TokenType::RightParen) {
        Outcome::Done { value: Seq::<ExprView>::empty(), used: 0 }
    } else {
        arguments(tokens, pos)
    };
    match listed {
        Outcome::Done { value: found, used } => {
            if expect(tokens, pos + used, TokenType::RightParen) {
                Outcome::Done {
                    value: ExprView::Call {
                        callee: Box::new(callee),
                        paren: token_at(tokens, pos + used),
                        arguments: found,
                    },
                    used: used + 1,
                }
            } else {
                Outcome::Failed {
                    error: parse_error(token_at(tokens, pos + used), "expect `)`"@),
                    used,
                }
            }
        },
        Outcome::Failed { error, used } => Outcome::Failed { error, used },
    }
}

/// One expression or more, with commas between.
pub open spec fn arguments(tokens: Seq<TokenView>, pos: nat) -> Outcome<Seq<ExprView>>
    decreases remaining(tokens, pos), 45nat,
{
    match expression(tokens, pos) {
        Outcome::Done { value: first, used } => after(
            arguments_rest(tokens, pos + used, seq![first]),
            used,
        ),
        Outcome::Failed { error, used } => Outcome::Failed { error, used },
    }
}

/// The arguments after the ones in `found`, each behind a comma; a comma
/// behind the 255th argument is an error at the token that follows it.
pub open spec fn arguments_rest(tokens: Seq<TokenView>, pos: nat, found: Seq<ExprView>) -> Outcome<
    Seq<ExprView>,
>
    decreases remaining(tokens, pos), 0nat,
{
    if expect(tokens, pos, TokenType::Comma) {
        if found.len() >= 255 {
            Outcome::Failed {
                error: parse_error(
                    token_at(tokens, pos + 1),
                    "can't have more than 255 arguments"@,
                ),
                used: 1,
            }
        } else {
            match expression(tokens, pos + 1) {
                Outcome::Done { value: next, used } => after(
                    arguments_rest(tokens, pos + 1 + used, found.push(next)),
                    1 + used,
                ),
                Outcome::Failed { error, used } => Outcome::Failed { error, used: used + 1 },
            }
        }
    } else {
        Outcome::Done { value: found, used: 0 }
    }
}

/// A literal, a name or a parenthesised expression. A number or string
/// token that carries no value is an error; any other token is an error
/// that takes nothing.
pub open spec fn primary(tokens: Seq<TokenView>, pos: nat) -> Outcome<ExprView>
    decreases remaining(tokens, pos), 8nat,
{
    let token = token_at(tokens, pos);
    if expect(tokens, pos, TokenType::Number) || expect(tokens, pos, TokenType::String) {
        match token.literal {
            Some(value) => Outcome::Done { value: ExprView::Literal { value }, used: 1 },
            None => Outcome::Failed {
                error: parse_error(token, "literal without a value"@),
                used: 1,
            },
        }
    } else if expect(tokens, pos, TokenType::False) {
        Outcome::Done { value: ExprView::Literal { value: ObjectView::False }, used: 1 }
    } else if expect(tokens, pos, TokenType::True) {
        Outcome::Done { value: ExprView::Literal { value: ObjectView::True }, used: 1 }
    } else if expect(tokens, pos, TokenType::Nil) {
        Outcome::Done { value: ExprView::Literal { value: ObjectView::Nil }, used: 1 }
    } else if expect(tokens, pos, TokenType::Identifier) {
        Outcome::Done { value: ExprView::Variable { name: token }, used: 1 }
    } else if expect(tokens, pos, TokenType::LeftParen) {
        after(
            map_done(
                closed_by(
                    expression(tokens, pos + 1),
                    tokens,
                    pos + 1,
                    TokenType::RightParen,
                    "expect `)` after expression"@,
                ),
                |inner: ExprView| ExprView::Grouping { expression: Box::new(inner) },
            ),
            1,
        )
    } else {
        Outcome::Failed { error: parse_error(token, "failed primary parse"@), used: 0 }
    }
}


/// The keywords that begin a statement, for the recovery from an error.
pub open spec fn starts_statement(kind: TokenType) -> bool {
    kind == TokenType::Class || kind == TokenType::Func || kind == TokenType::Var || kind
        == TokenType::For || kind == TokenType::If || kind == TokenType::While || kind
        == TokenType::Print || kind == TokenType::Return
}

/// The first position at or after `pos`, a position behind at least one
/// token, that is a statement boundary: the end of input, a position
/// behind a `;`, or one before a keyword that begins a statement.
pub open spec fn synchronize_from(tokens: Seq<TokenView>, pos: nat) -> nat
    decreases remaining(tokens, pos),
{
    if at_end(tokens, pos) {
        pos
    } else if pos > 0 && token_at(tokens, (pos - 1) as nat).tk_type == TokenType::SemiColon {
        pos
    } else if starts_statement(token_at(tokens, pos).tk_type) {
        pos
    } else {
        synchronize_from(tokens, pos + 1)
    }
}

/// Where the parser stands after recovering from an error found at `pos`:
/// one token is passed whatever it is, then the next boundary is sought.
pub open spec fn synchronize(tokens: Seq<TokenView>, pos: nat) -> nat {
    if pos < tokens.len() {
        synchronize_from(tokens, pos + 1)
    } else {
        pos
    }
}


/// The outcome of a rule that fails.
pub open spec fn failed<T>(error: LoxResultView, used: nat) -> Outcome<T> {
    Outcome::Failed { error, used }
}

/// The outcome of a rule that makes `value`.
pub open spec fn done<T>(value: T, used: nat) -> Outcome<T> {
    Outcome::Done { value, used }
}

/// One declaration, without the recovery from an error in it.
pub open spec fn declare(tokens: Seq<TokenView>, pos: nat) -> Outcome<StmtView>
    decreases remaining(tokens, pos), 75nat,
{
    if expect(tokens, pos, TokenType::Var) {
        after(var_declaration(tokens, pos + 1), 1)
    } else if expect(tokens, pos, TokenType::Func) {
        after(function(tokens, pos + 1, "function"@), 1)
    } else {
        statement(tokens, pos)
    }
}

/// One declaration. Where it fails, the parser recovers before the error
/// is handed on: it stands at the next statement boundary.
pub open spec fn declaration(tokens: Seq<TokenView>, pos: nat) -> Outcome<StmtView>
    decreases remaining(tokens, pos), 80nat,
{
    match declare(tokens, pos) {
        Outcome::Failed { error, used } => failed(
            error,
            (synchronize(tokens, pos + used) - pos) as nat,
        ),
        made => made,
    }
}

/// A variable declaration, after its `var`.
pub open spec fn var_declaration(tokens: Seq<TokenView>, pos: nat) -> Outcome<StmtView>
    decreases remaining(tokens, pos), 60nat,
{
    if expect(tokens, pos, TokenType::Identifier) {
        let initial = if expect(tokens, pos + 1, TokenType::Equal) {
            after(map_done(expression(tokens, pos + 2), |e: ExprView| Some(e)), 1)
        } else {
            done(None, 0)
        };
        after(
            map_done(
                closed_by(
                    initial,
                    tokens,
                    pos + 1,
                    TokenType::SemiColon,
                    "expect `;` after variable declaration"@,
                ),
                |initializer: Option<ExprView>|
                    StmtView::Var { name: token_at(tokens, pos), initializer },
            ),
            1,
        )
    } else {
        failed(parse_error(token_at(tokens, pos), "expect variable name"@), 0)
    }
}

/// The parameter names after the ones in `found`, each behind a comma; a
/// comma behind the 255th name is an error at the token that follows it.
pub open spec fn parameters_rest(tokens: Seq<TokenView>, pos: nat, found: Seq<TokenView>) -> Outcome<
    Seq<TokenView>,
>
    decreases remaining(tokens, pos),
{
    if expect(tokens, pos, TokenType::Comma) {
        if found.len() >= 255 {
            failed(parse_error(token_at(tokens, pos + 1), "can't have more than 255 parameters"@), 1)
        } else if expect(tokens, pos + 1, TokenType::Identifier) {
            after(parameters_rest(tokens, pos + 2, found.push(token_at(tokens, pos + 1))), 2)
        } else {
            failed(parse_error(token_at(tokens, pos + 1), "expect a param name"@), 1)
        }
    } else {
        done(found, 0)
    }
}

/// One name or more, with commas between.
pub open spec fn parameters(tokens: Seq<TokenView>, pos: nat) -> Outcome<Seq<TokenView>> {
    if expect(tokens, pos, TokenType::Identifier) {
        after(parameters_rest(tokens, pos + 1, seq![token_at(tokens, pos)]), 1)
    } else {
        failed(parse_error(token_at(tokens, pos), "expect a param name"@), 0)
    }
}

/// A function, after its `func`: name, parameter list and body. `kind`
/// is the word for it in the messages.
pub open spec fn function(tokens: Seq<TokenView>, pos: nat, kind: Seq<char>) -> Outcome<StmtView>
    decreases remaining(tokens, pos), 60nat,
{
    if !expect(tokens, pos, TokenType::Identifier) {
        failed(parse_error(token_at(tokens, pos), "expect a "@ + kind + " name"@), 0)
    } else if !expect(tokens, pos + 1, TokenType::LeftParen) {
        failed(parse_error(token_at(tokens, pos + 1), "expect `(` after "@ + kind + " name"@), 1)
    } else {
        let listed = if expect(tokens, pos + 2, TokenType::RightParen) {
            done(Seq::<TokenView>::empty(), 0)
        } else {
            parameters(tokens, pos + 2)
        };
        let opened = closed_by(
            closed_by(
                listed,
                tokens,
                pos + 2,
                TokenType::RightParen,
                "expect `)` after parameters"@,
            ),
            tokens,
            pos + 2,
            TokenType::LeftBrace,
            "expect `{` before "@ + kind + " body"@,
        );
        match opened {
            Outcome::Done { value: params, used } => after(
                map_done(
                    block(tokens, pos + 2 + used),
                    |body: Seq<StmtView>|
                        StmtView::Function { name: token_at(tokens, pos), params, body },
                ),
                2 + used,
            ),
            Outcome::Failed { error, used } => failed(error, 2 + used),
        }
    }
}

/// A statement, told by its first token; what begins with no keyword and
/// no `{` is an expression statement.
pub open spec fn statement(tokens: Seq<TokenView>, pos: nat) -> Outcome<StmtView>
    decreases remaining(tokens, pos), 70nat,
{
    if expect(tokens, pos, TokenType::Return) {
        after(return_statement(tokens, pos + 1), 1)
    } else if expect(tokens, pos, TokenType::Break) {
        after(break_statement(tokens, pos + 1), 1)
    } else if expect(tokens, pos, TokenType::For) {
        after(for_statement(tokens, pos + 1), 1)
    } else if expect(tokens, pos, TokenType::While) {
        after(while_statement(tokens, pos + 1), 1)
    } else if expect(tokens, pos, TokenType::If) {
        after(if_statement(tokens, pos + 1), 1)
    } else if expect(tokens, pos, TokenType::LeftBrace) {
        after(
            map_done(
                block(tokens, pos + 1),
                |statements: Seq<StmtView>| StmtView::Block { statements },
            ),
            1,
        )
    } else if expect(tokens, pos, TokenType::Print) {
        after(print_statement(tokens, pos + 1), 1)
    } else {
        expression_statement(tokens, pos)
    }
}

/// A return statement, after its `return`, which stands before `pos`.
pub open spec fn return_statement(tokens: Seq<TokenView>, pos: nat) -> Outcome<StmtView>
    decreases remaining(tokens, pos), 60nat,
{
    let returned = if expect(tokens, pos, TokenType::SemiColon) {
        done(None, 0)
    } else {
        map_done(expression(tokens, pos), |e: ExprView| Some(e))
    };
    map_done(
        closed_by(returned, tokens, pos, TokenType::SemiColon, "expect `;` after return"@),
        |value: Option<ExprView>|
            StmtView::Return { name: token_at(tokens, (pos - 1) as nat), value },
    )
}

/// A break statement, after its `break`.
pub open spec fn break_statement(tokens: Seq<TokenView>, pos: nat) -> Outcome<StmtView> {
    if expect(tokens, pos, TokenType::SemiColon) {
        done(StmtView::Break { u: 0 }, 1)
    } else {
        failed(parse_error(token_at(tokens, pos), "expect `;` after break statement"@), 0)
    }
}

/// What a `for` loop stands for: the body, with the increment behind it
/// in a block where there is one, in a `while`; and that behind the
/// initializer in a block where there is one.
pub open spec fn desugar_for(
    initializer: Option<StmtView>,
    condition: ExprView,
    increment: Option<ExprView>,
    body: StmtView,
) -> StmtView {
    let stepped = match increment {
        Some(expression) => StmtView::Block {
            statements: seq![body, StmtView::Expression { expression }],
        },
        None => body,
    };
    let looped = StmtView::While { condition, body: Box::new(stepped) };
    match initializer {
        Some(first) => StmtView::Block { statements: seq![first, looped] },
        None => looped,
    }
}

/// The initializer clause of a `for`, with its `;`: empty, a variable
/// declaration, or an expression statement.
pub open spec fn for_initializer(tokens: Seq<TokenView>, pos: nat) -> Outcome<Option<StmtView>>
    decreases remaining(tokens, pos), 65nat,
{
    if expect(tokens, pos, TokenType::SemiColon) {
        done(None, 1)
    } else if expect(tokens, pos, TokenType::Var) {
        after(map_done(var_declaration(tokens, pos + 1), |s: StmtView| Some(s)), 1)
    } else {
        map_done(expression_statement(tokens, pos), |s: StmtView| Some(s))
    }
}

/// The condition clause of a `for`, with its `;`; an empty one is `true`.
pub open spec fn for_condition(tokens: Seq<TokenView>, pos: nat) -> Outcome<ExprView>
    decreases remaining(tokens, pos), 65nat,
{
    let tested = if expect(tokens, pos, TokenType::SemiColon) {
        done(ExprView::Literal { value: ObjectView::True }, 0)
    } else {
        expression(tokens, pos)
    };
    closed_by(tested, tokens, pos, TokenType::SemiColon, "expect `;` in `for` middle"@)
}

/// The increment clause of a `for`, with the closing `)`.
pub open spec fn for_increment(tokens: Seq<TokenView>, pos: nat) -> Outcome<Option<ExprView>>
    decreases remaining(tokens, pos), 65nat,
{
    let stepped = if expect(tokens, pos, TokenType::RightParen) {
        done(None, 0)
    } else {
        map_done(expression(tokens, pos), |e: ExprView| Some(e))
    };
    closed_by(stepped, tokens, pos, TokenType::RightParen, "expect `)` after `for` end"@)
}

/// The three clauses of a `for`, between its parentheses.
pub struct ForClauses {
    pub initializer: Option<StmtView>,
    pub condition: ExprView,
    pub increment: Option<ExprView>,
}

/// The parenthesised head of a `for` loop, after its `for`.
pub open spec fn for_clauses(tokens: Seq<TokenView>, pos: nat) -> Outcome<ForClauses>
    decreases remaining(tokens, pos), 67nat,
{
    if !expect(tokens, pos, TokenType::LeftParen) {
        failed(parse_error(token_at(tokens, pos), "expect `(` after `for`"@), 0)
    } else {
        match for_initializer(tokens, pos + 1) {
            Outcome::Failed { error, used } => failed(error, 1 + used),
            Outcome::Done { value: initializer, used: a } => match for_condition(
                tokens,
                pos + 1 + a,
            ) {
                Outcome::Failed { error, used } => failed(error, 1 + a + used),
                Outcome::Done { value: condition, used: b } => match for_increment(
                    tokens,
                    pos + 1 + a + b,
                ) {
                    Outcome::Failed { error, used } => failed(error, 1 + a + b + used),
                    Outcome::Done { value: increment, used: c } => done(
                        ForClauses { initializer, condition, increment },
                        1 + a + b + c,
                    ),
                },
            },
        }
    }
}

/// A `for` loop, after its `for`.
pub open spec fn for_statement(tokens: Seq<TokenView>, pos: nat) -> Outcome<StmtView>
    decreases remaining(tokens, pos), 68nat,
{
    match for_clauses(tokens, pos) {
        Outcome::Failed { error, used } => failed(error, used),
        Outcome::Done { value: clauses, used } => after(
            map_done(
                statement(tokens, pos + used),
                |body: StmtView|
                    desugar_for(clauses.initializer, clauses.condition, clauses.increment, body),
            ),
            used,
        ),
    }
}

/// A parenthesised condition: `(`, an expression, `)`. The messages say
/// what it follows.
pub open spec fn condition(
    tokens: Seq<TokenView>,
    pos: nat,
    open_message: Seq<char>,
    close_message: Seq<char>,
) -> Outcome<ExprView>
    decreases remaining(tokens, pos), 65nat,
{
    if !expect(tokens, pos, TokenType::LeftParen) {
        failed(parse_error(token_at(tokens, pos), open_message), 0)
    } else {
        after(
            closed_by(
                expression(tokens, pos + 1),
                tokens,
                pos + 1,
                TokenType::RightParen,
                close_message,
            ),
            1,
        )
    }
}

/// A `while` loop, after its `while`.
pub open spec fn while_statement(tokens: Seq<TokenView>, pos: nat) -> Outcome<StmtView>
    decreases remaining(tokens, pos), 68nat,
{
    match condition(tokens, pos, "expect `(` after while"@, "expect `)` after condition"@) {
        Outcome::Done { value: tested, used } => after(
            map_done(
                statement(tokens, pos + used),
                |body: StmtView| StmtView::While { condition: tested, body: Box::new(body) },
            ),
            used,
        ),
        Outcome::Failed { error, used } => failed(error, used),
    }
}

/// An `if`, after its `if`; an `else` belongs to the nearest `if`.
pub open spec fn if_statement(tokens: Seq<TokenView>, pos: nat) -> Outcome<StmtView>
    decreases remaining(tokens, pos), 68nat,
{
    match condition(tokens, pos, "expect `(` after if"@, "expect `)`"@) {
        Outcome::Done { value: tested, used } => match statement(tokens, pos + used) {
            Outcome::Done { value: then_branch, used: more } => {
                if expect(tokens, pos + used + more, TokenType::Else) {
                    after(
                        map_done(
                            statement(tokens, pos + used + more + 1),
                            |else_branch: StmtView|
                                StmtView::If {
                                    condition: tested,
                                    then_branch: Box::new(then_branch),
                                    else_branch: Some(Box::new(else_branch)),
                                },
                        ),
                        used + more + 1,
                    )
                } else {
                    done(
                        StmtView::If {
                            condition: tested,
                            then_branch: Box::new(then_branch),
                            else_branch: None,
                        },
                        used + more,
                    )
                }
            },
            Outcome::Failed { error, used: more } => failed(error, used + more),
        },
        Outcome::Failed { error, used } => failed(error, used),
    }
}

/// The declarations of a block and its closing brace, after its `{`.
pub open spec fn block(tokens: Seq<TokenView>, pos: nat) -> Outcome<Seq<StmtView>>
    decreases remaining(tokens, pos), 100nat,
{
    closed_by(
        block_rest(tokens, pos, Seq::empty()),
        tokens,
        pos,
        TokenType::RightBrace,
        "expected `}`"@,
    )
}

/// The declarations of a block after the ones in `found`, up to a `}` or
/// the end of input.
pub open spec fn block_rest(tokens: Seq<TokenView>, pos: nat, found: Seq<StmtView>) -> Outcome<
    Seq<StmtView>,
>
    decreases remaining(tokens, pos), 95nat,
{
    if !expect(tokens, pos, TokenType::RightBrace) && !at_end(tokens, pos) {
        match declaration(tokens, pos) {
            Outcome::Done { value, used } => {
                if used == 0 {
                    done(found.push(value), 0)
                } else {
                    after(block_rest(tokens, pos + used, found.push(value)), used)
                }
            },
            Outcome::Failed { error, used } => failed(error, used),
        }
    } else {
        done(found, 0)
    }
}

/// A print statement, after its `print`.
pub open spec fn print_statement(tokens: Seq<TokenView>, pos: nat) -> Outcome<StmtView>
    decreases remaining(tokens, pos), 60nat,
{
    map_done(
        closed_by(
            expression(tokens, pos),
            tokens,
            pos,
            TokenType::SemiColon,
            "expect `;` after expression"@,
        ),
        |expression: ExprView| StmtView::Print { expression },
    )
}

/// An expression and its `;`.
pub open spec fn expression_statement(tokens: Seq<TokenView>, pos: nat) -> Outcome<StmtView>
    decreases remaining(tokens, pos), 60nat,
{
    map_done(
        closed_by(
            expression(tokens, pos),
            tokens,
            pos,
            TokenType::SemiColon,
            "expect `;` after expression"@,
        ),
        |expression: ExprView| StmtView::Expression { expression },
    )
}

/// The declarations after the ones in `found`, up to the end of input.
pub open spec fn program_rest(tokens: Seq<TokenView>, pos: nat, found: Seq<StmtView>) -> Outcome<
    Seq<StmtView>,
>
    decreases remaining(tokens, pos), 110nat,
{
    if at_end(tokens, pos) {
        done(found, 0)
    } else {
        match declaration(tokens, pos) {
            Outcome::Done { value, used } => {
                if used == 0 {
                    done(found.push(value), 0)
                } else {
                    after(program_rest(tokens, pos + used, found.push(value)), used)
                }
            },
            Outcome::Failed { error, used } => failed(error, used),
        }
    }
}

/// The declarations from `pos` up to the end of input, or the first error.
pub open spec fn program(tokens: Seq<TokenView>, pos: nat) -> Outcome<Seq<StmtView>> {
    program_rest(tokens, pos, Seq::empty())
}


/// A declaration that is made takes at least one token: the loops over
/// declarations never stand still.
pub proof fn lemma_declaration_advances(tokens: Seq<TokenView>, pos: nat)
    ensures
        declaration(tokens, pos) matches Outcome::Done { value, used } ==> used > 0,
{
}

/// At every level of the ladder, a number or string token that carries a
/// value and stands before a `;` is a literal expression of that value.
pub proof fn lemma_ladder_literal(tokens: Seq<TokenView>, pos: nat, level: nat, value: ObjectView)
    requires
        pos + 1 < tokens.len(),
        tokens[pos as int].tk_type == TokenType::Number || tokens[pos as int].tk_type
            == TokenType::String,
        tokens[pos as int].literal == Some(value),
        tokens[pos as int + 1].tk_type == TokenType::SemiColon,
    ensures
        ladder(tokens, pos, level) == done(ExprView::Literal { value }, 1),
    decreases 7 - level,
{
    reveal_with_fuel(ladder, 2);
    reveal_with_fuel(ladder_rest, 2);
    reveal_with_fuel(unary, 2);
    reveal_with_fuel(call, 2);
    reveal_with_fuel(call_rest, 2);
    reveal_with_fuel(primary, 2);
    if level < 6 {
        lemma_ladder_literal(tokens, pos, level + 1, value);
    } else {
        assert(primary(tokens, pos) == done(ExprView::Literal { value }, 1));
        assert(call_rest(tokens, pos + 1, ExprView::Literal { value }) == done(
            ExprView::Literal { value },
            0,
        ));
        assert(call(tokens, pos) == done(ExprView::Literal { value }, 1));
        assert(unary(tokens, pos) == done(ExprView::Literal { value }, 1));
    }
}

/// A literal that stands alone before a `;` is an expression statement
/// whose expression is a literal of the very value that the token
/// carries.
pub proof fn lemma_literal_statement(tokens: Seq<TokenView>, pos: nat, value: ObjectView)
    requires
        pos + 1 < tokens.len(),
        tokens[pos as int].tk_type == TokenType::Number || tokens[pos as int].tk_type
            == TokenType::String,
        tokens[pos as int].literal == Some(value),
        tokens[pos as int + 1].tk_type == TokenType::SemiColon,
    ensures
        declaration(tokens, pos) == done(
            StmtView::Expression { expression: ExprView::Literal { value } },
            2,
        ),
{
    lemma_ladder_literal(tokens, pos, 0, value);
}


/// A place where a statement may begin: the end of input, a position
/// behind a `;`, or one before a keyword that begins a statement.
pub open spec fn is_boundary(tokens: Seq<TokenView>, pos: nat) -> bool {
    at_end(tokens, pos) || (pos > 0 && token_at(tokens, (pos - 1) as nat).tk_type
        == TokenType::SemiColon) || starts_statement(token_at(tokens, pos).tk_type)
}

/// The search for a boundary ends at the first one.
pub proof fn lemma_synchronize_from(tokens: Seq<TokenView>, pos: nat)
    ensures
        pos <= synchronize_from(tokens, pos),
        is_boundary(tokens, synchronize_from(tokens, pos)),
        forall|p: nat| pos <= p < synchronize_from(tokens, pos) ==> !is_boundary(tokens, p),
    decreases remaining(tokens, pos),
{
    if !is_boundary(tokens, pos) {
        lemma_synchronize_from(tokens, pos + 1);
    }
}

/// After an error the parser goes on at a statement boundary: at the
/// first one behind the token at which it stood, so that no statement
/// that begins at a boundary behind the error is lost.
pub proof fn lemma_synchronize(tokens: Seq<TokenView>, pos: nat)
    ensures
        pos <= synchronize(tokens, pos),
        pos < tokens.len() ==> {
            &&& pos < synchronize(tokens, pos)
            &&& is_boundary(tokens, synchronize(tokens, pos))
            &&& forall|p: nat| pos < p < synchronize(tokens, pos) ==> !is_boundary(tokens, p)
        },
{
    if pos < tokens.len() {
        lemma_synchronize_from(tokens, pos + 1);
    }
}


/// What is made of a program whose errors are passed over: the
/// statements that parsed, the errors that were found, both in their
/// order, and the position reached.
pub struct Recovered {
    pub statements: Seq<StmtView>,
    pub errors: Seq<LoxResultView>,
    pub next: nat,
}

/// The declarations from `pos` up to the end of input, behind what was
/// found before. A declaration that fails leaves its error, and the next
/// one is tried where the recovery from the error ended.
pub open spec fn recover(tokens: Seq<TokenView>, pos: nat, found: Recovered) -> Recovered
    decreases remaining(tokens, pos),
{
    if at_end(tokens, pos) {
        Recovered { next: pos, ..found }
    } else {
        match declaration(tokens, pos) {
            Outcome::Done { value, used } => {
                let more = Recovered { statements: found.statements.push(value), ..found };
                if used == 0 {
                    Recovered { next: pos, ..more }
                } else {
                    recover(tokens, pos + used, more)
                }
            },
            Outcome::Failed { error, used } => {
                let more = Recovered { errors: found.errors.push(error), ..found };
                if used == 0 {
                    Recovered { next: pos, ..more }
                } else {
                    recover(tokens, pos + used, more)
                }
            },
        }
    }
}

/// A declaration that fails before the end of input takes at least one
/// token with its recovery: the search for the next statement never
/// stands still.
pub proof fn lemma_failure_advances(tokens: Seq<TokenView>, pos: nat)
    requires
        pos < tokens.len(),
    ensures
        declaration(tokens, pos) matches Outcome::Failed { error, used } ==> used > 0,
{
    match declare(tokens, pos) {
        Outcome::Failed { error, used } => {
            lemma_synchronize(tokens, pos + used);
        },
        _ => {},
    }
}

} // verus!
