//! The shape of the trees that the parser makes: precedence and
//! associativity, for every expression.
use vstd::prelude::*;
use crate::expr::ExprView;
use crate::parser::grammar::arguments;
use crate::parser::grammar::arguments_rest;
use crate::parser::grammar::assignment;
use crate::parser::grammar::at_end;
use crate::parser::grammar::call;
use crate::parser::grammar::call_rest;
use crate::parser::grammar::expect;
use crate::parser::grammar::expression;
use crate::parser::grammar::finish_call;
use crate::parser::grammar::join;
use crate::parser::grammar::ladder;
use crate::parser::grammar::ladder_rest;
use crate::parser::grammar::operator_of;
use crate::parser::grammar::primary;
use crate::parser::grammar::remaining;
use crate::parser::grammar::rung;
use crate::parser::grammar::token_at;
use crate::parser::grammar::unary;
use crate::parser::grammar::Outcome;
use crate::token::TokenView;
use crate::token_type::TokenType;

verus! {

/// The level of the ladder that an operator belongs to; 6 for a token
/// that is no binary operator.
pub open spec fn level_of(kind: TokenType) -> nat {
    if kind == TokenType::Or {
        0
    } else if kind == TokenType::And {
        1
    } else if kind == TokenType::BangEqual || kind == TokenType::EqualEqual {
        2
    } else if kind == TokenType::Greater || kind == TokenType::GreaterEqual || kind
        == TokenType::Less || kind == TokenType::LessEqual {
        3
    } else if kind == TokenType::Plus || kind == TokenType::Minus {
        4
    } else if kind == TokenType::Star || kind == TokenType::Slash {
        5
    } else {
        6
    }
}

/// How tightly the outermost operator of an expression binds: 0 for an
/// assignment, 1 to 6 for the binary levels from `or` to factor, 7 for a
/// unary operator, 8 for a call, 9 for what stands alone.
pub open spec fn binding(e: ExprView) -> nat {
    match e {
        ExprView::Assign { name, value } => 0,
        ExprView::Logical { left, operator, right } => level_of(operator.tk_type) + 1,
        ExprView::Binary { left, operator, right } => level_of(operator.tk_type) + 1,
        ExprView::Unary { operator, right } => 7,
        ExprView::Call { callee, paren, arguments } => 8,
        _ => 9,
    }
}

/// The tree shows the precedence and the associativity of its operators:
/// the left operand of a binary operator binds at least as tightly as the
/// operator, so operators of one level group to the left; the right
/// operand binds more tightly; the operand of a unary operator is unary
/// or tighter; a callee is a call or stands alone. Looser expressions
/// occur only between parentheses, as arguments and as assigned values.
pub open spec fn shaped(e: ExprView) -> bool
    decreases e,
{
    match e {
        ExprView::Assign { name, value } => shaped(*value),
        ExprView::Logical { left, operator, right } => {
            &&& binding(*left) >= binding(e)
            &&& binding(*right) > binding(e)
            &&& shaped(*left)
            &&& shaped(*right)
        },
        ExprView::Binary { left, operator, right } => {
            &&& binding(*left) >= binding(e)
            &&& binding(*right) > binding(e)
            &&& shaped(*left)
            &&& shaped(*right)
        },
        ExprView::Unary { operator, right } => binding(*right) >= 7 && shaped(*right),
        ExprView::Call { callee, paren, arguments } => {
            &&& binding(*callee) >= 8
            &&& shaped(*callee)
            &&& forall|i: int| 0 <= i < arguments.len() ==> shaped(#[trigger] arguments[i])
        },
        ExprView::Grouping { expression } => shaped(*expression),
        _ => true,
    }
}

/// Every expression that the parser makes is shaped.
pub proof fn lemma_expression_shaped(tokens: Seq<TokenView>, pos: nat)
    ensures
        expression(tokens, pos) matches Outcome::Done { value, used } ==> shaped(value),
    decreases remaining(tokens, pos), 40nat,
{
    lemma_assignment_shaped(tokens, pos);
}

/// Every assignment that the parser makes is shaped.
pub proof fn lemma_assignment_shaped(tokens: Seq<TokenView>, pos: nat)
    ensures
        assignment(tokens, pos) matches Outcome::Done { value, used } ==> shaped(value),
    decreases remaining(tokens, pos), 39nat,
{
    lemma_ladder_shaped(tokens, pos, 0);
    match ladder(tokens, pos, 0) {
        Outcome::Done { value: target, used } => {
            if expect(tokens, pos + used, TokenType::Equal) {
                lemma_assignment_shaped(tokens, pos + used + 1);
            }
        },
        _ => {},
    }
}

/// What is parsed at a level of the ladder binds at least as tightly as
/// the operators of that level.
pub proof fn lemma_ladder_shaped(tokens: Seq<TokenView>, pos: nat, level: nat)
    ensures
        ladder(tokens, pos, level) matches Outcome::Done { value, used } ==> shaped(value)
            && binding(value) >= (if level < 6 {
            level + 1
        } else {
            7
        }),
    decreases remaining(tokens, pos), rung(level),
{
    if level >= 6 {
        lemma_unary_shaped(tokens, pos);
    } else {
        lemma_ladder_shaped(tokens, pos, level + 1);
        match ladder(tokens, pos, level + 1) {
            Outcome::Done { value: left, used } => {
                lemma_ladder_rest_shaped(tokens, pos + used, level, left);
            },
            _ => {},
        }
    }
}

/// Folding operators of a level onto a shaped operand of that level leaves
/// a shaped expression of that level.
pub proof fn lemma_ladder_rest_shaped(tokens: Seq<TokenView>, pos: nat, level: nat, left: ExprView)
    requires
        shaped(left),
        binding(left) >= level + 1,
    ensures
        ladder_rest(tokens, pos, level, left) matches Outcome::Done { value, used } ==> shaped(value)
            && binding(value) >= level + 1,
    decreases remaining(tokens, pos), 0nat,
{
    if level < 6 && !at_end(tokens, pos) && operator_of(level, token_at(tokens, pos).tk_type) {
        lemma_ladder_shaped(tokens, pos + 1, level + 1);
        match ladder(tokens, pos + 1, level + 1) {
            Outcome::Done { value: right, used } => {
                let joined = join(level, left, token_at(tokens, pos), right);
                assert(level_of(token_at(tokens, pos).tk_type) == level);
                assert(binding(joined) == level + 1);
                assert(shaped(joined));
                lemma_ladder_rest_shaped(tokens, pos + 1 + used, level, joined);
            },
            _ => {},
        }
    }
}

/// What is parsed as unary is unary or tighter.
pub proof fn lemma_unary_shaped(tokens: Seq<TokenView>, pos: nat)
    ensures
        unary(tokens, pos) matches Outcome::Done { value, used } ==> shaped(value) && binding(value)
            >= 7,
    decreases remaining(tokens, pos), 10nat,
{
    if expect(tokens, pos, TokenType::Bang) || expect(tokens, pos, TokenType::Minus) {
        lemma_unary_shaped(tokens, pos + 1);
    } else {
        lemma_call_shaped(tokens, pos);
    }
}

/// What is parsed as a call is a call or stands alone.
pub proof fn lemma_call_shaped(tokens: Seq<TokenView>, pos: nat)
    ensures
        call(tokens, pos) matches Outcome::Done { value, used } ==> shaped(value) && binding(value)
            >= 8,
    decreases remaining(tokens, pos), 9nat,
{
    lemma_primary_shaped(tokens, pos);
    match primary(tokens, pos) {
        Outcome::Done { value: callee, used } => {
            lemma_call_rest_shaped(tokens, pos + used, callee);
        },
        _ => {},
    }
}

/// Argument lists behind a shaped callee make shaped calls.
pub proof fn lemma_call_rest_shaped(tokens: Seq<TokenView>, pos: nat, callee: ExprView)
    requires
        shaped(callee),
        binding(callee) >= 8,
    ensures
        call_rest(tokens, pos, callee) matches Outcome::Done { value, used } ==> shaped(value)
            && binding(value) >= 8,
    decreases remaining(tokens, pos), 0nat,
{
    if expect(tokens, pos, TokenType::LeftParen) {
        lemma_finish_call_shaped(tokens, pos + 1, callee);
        match finish_call(tokens, pos + 1, callee) {
            Outcome::Done { value: made, used } => {
                lemma_call_rest_shaped(tokens, pos + 1 + used, made);
            },
            _ => {},
        }
    }
}

/// A call of a shaped callee is shaped.
pub proof fn lemma_finish_call_shaped(tokens: Seq<TokenView>, pos: nat, callee: ExprView)
    requires
        shaped(callee),
        binding(callee) >= 8,
    ensures
        finish_call(tokens, pos, callee) matches Outcome::Done { value, used } ==> shaped(value)
            && binding(value) == 8,
    decreases remaining(tokens, pos), 50nat,
{
    if !expect(tokens, pos, TokenType::RightParen) {
        lemma_arguments_shaped(tokens, pos);
    }
}

/// All arguments are shaped.
pub proof fn lemma_arguments_shaped(tokens: Seq<TokenView>, pos: nat)
    ensures
        arguments(tokens, pos) matches Outcome::Done { value, used } ==> forall|i: int|
            0 <= i < value.len() ==> shaped(#[trigger] value[i]),
    decreases remaining(tokens, pos), 45nat,
{
    lemma_expression_shaped(tokens, pos);
    match expression(tokens, pos) {
        Outcome::Done { value: first, used } => {
            lemma_arguments_rest_shaped(tokens, pos + used, seq![first]);
        },
        _ => {},
    }
}

/// Arguments added to shaped ones are shaped.
pub proof fn lemma_arguments_rest_shaped(tokens: Seq<TokenView>, pos: nat, found: Seq<ExprView>)
    requires
        forall|i: int| 0 <= i < found.len() ==> shaped(#[trigger] found[i]),
    ensures
        arguments_rest(tokens, pos, found) matches Outcome::Done { value, used } ==> forall|i: int|
            0 <= i < value.len() ==> shaped(#[trigger] value[i]),
    decreases remaining(tokens, pos), 0nat,
{
    if expect(tokens, pos, TokenType::Comma) && found.len() < 255 {
        lemma_expression_shaped(tokens, pos + 1);
        match expression(tokens, pos + 1) {
            Outcome::Done { value: next, used } => {
                let more = found.push(next);
                assert forall|i: int| 0 <= i < more.len() implies shaped(#[trigger] more[i]) by {
                    if i < found.len() {
                        assert(more[i] == found[i]);
                    }
                }
                lemma_arguments_rest_shaped(tokens, pos + 1 + used, more);
            },
            _ => {},
        }
    }
}

/// What stands alone is shaped.
pub proof fn lemma_primary_shaped(tokens: Seq<TokenView>, pos: nat)
    ensures
        primary(tokens, pos) matches Outcome::Done { value, used } ==> shaped(value) && binding(
            value,
        ) == 9,
    decreases remaining(tokens, pos), 8nat,
{
    if expect(tokens, pos, TokenType::LeftParen) {
        lemma_expression_shaped(tokens, pos + 1);
    }
}

} // verus!
