//! Expression trees.
use vstd::prelude::*;
use std::rc::Rc;
use crate::token::views;
use crate::token::Token;
use crate::token::TokenView;
use crate::value::object::Object;
use crate::value::object::ObjectView;

verus! {

/// An expression. A node owns its parts; they are shared so that what is
/// still to be evaluated can hold on to them.
#[derive(Debug)]
pub enum Expr {
    Assign(AssignExpr),
    Binary(BinaryExpr),
    Grouping(GroupingExpr),
    Literal(LiteralExpr),
    Logical(LogicalExpr),
    Unary(UnaryExpr),
    Call(CallExpr),
    Variable(VariableExpr),
}

/// `name = value`.
#[derive(Debug)]
pub struct AssignExpr {
    pub name: Token,
    pub value: Rc<Expr>,
}

/// `left operator right`, the operator being one of arithmetic, comparison
/// or equality.
#[derive(Debug)]
pub struct BinaryExpr {
    pub left: Rc<Expr>,
    pub operator: Token,
    pub right: Rc<Expr>,
}

/// `( expression )`.
#[derive(Debug)]
pub struct GroupingExpr {
    pub expression: Rc<Expr>,
}

/// A value written out.
#[derive(Debug)]
pub struct LiteralExpr {
    pub value: Object,
}

/// `left or right`, `left and right`.
#[derive(Debug)]
pub struct LogicalExpr {
    pub left: Rc<Expr>,
    pub operator: Token,
    pub right: Rc<Expr>,
}

/// `! right`, `- right`.
#[derive(Debug)]
pub struct UnaryExpr {
    pub operator: Token,
    pub right: Rc<Expr>,
}

/// `callee ( arguments )`; `paren` is the closing parenthesis, where errors
/// of the call are reported.
#[derive(Debug)]
pub struct CallExpr {
    pub callee: Rc<Expr>,
    pub paren: Token,
    pub arguments: Vec<Rc<Expr>>,
}

/// A name that is read.
#[derive(Debug)]
pub struct VariableExpr {
    pub name: Token,
}

/// An expression as a mathematical tree.
#[allow(inconsistent_fields)]
pub enum ExprView {
    Assign { name: TokenView, value: Box<ExprView> },
    Binary { left: Box<ExprView>, operator: TokenView, right: Box<ExprView> },
    Grouping { expression: Box<ExprView> },
    Literal { value: ObjectView },
    Logical { left: Box<ExprView>, operator: TokenView, right: Box<ExprView> },
    Unary { operator: TokenView, right: Box<ExprView> },
    Call { callee: Box<ExprView>, paren: TokenView, arguments: Seq<ExprView> },
    Variable { name: TokenView },
}

impl Expr {
    /// The tree that the expression stands for.
    pub open spec fn view(&self) -> ExprView
        decreases self,
    {
        match self {
            Expr::Assign(e) => ExprView::Assign { name: e.name@, value: Box::new(e.value.view()) },
            Expr::Binary(e) => ExprView::Binary {
                left: Box::new(e.left.view()),
                operator: e.operator@,
                right: Box::new(e.right.view()),
            },
            Expr::Grouping(e) => ExprView::Grouping { expression: Box::new(e.expression.view()) },
            Expr::Literal(e) => ExprView::Literal { value: e.value@ },
            Expr::Logical(e) => ExprView::Logical {
                left: Box::new(e.left.view()),
                operator: e.operator@,
                right: Box::new(e.right.view()),
            },
            Expr::Unary(e) => ExprView::Unary {
                operator: e.operator@,
                right: Box::new(e.right.view()),
            },
            Expr::Call(e) => ExprView::Call {
                callee: Box::new(e.callee.view()),
                paren: e.paren@,
                arguments: Seq::new(
                    e.arguments@.len(),
                    |i: int|
                        if 0 <= i < e.arguments@.len() {
                            e.arguments@[i].view()
                        } else {
                            arbitrary()
                        },
                ),
            },
            Expr::Variable(e) => ExprView::Variable { name: e.name@ },
        }
    }
}

/// The views of a run of expressions, in order.
pub open spec fn expr_views(exprs: Seq<Rc<Expr>>) -> Seq<ExprView> {
    Seq::new(exprs.len(), |i: int| exprs[i].view())
}

/// The views of a run that was extended by one expression.
pub proof fn lemma_expr_views_push(exprs: Seq<Rc<Expr>>, expr: Rc<Expr>)
    ensures
        expr_views(exprs.push(expr)) == expr_views(exprs).push(expr.view()),
{
    assert(expr_views(exprs.push(expr)) =~= expr_views(exprs).push(expr.view()));
}

/// The view of a call lists the views of its arguments.
pub proof fn lemma_call_view(call: CallExpr)
    ensures
        Expr::Call(call).view() == (ExprView::Call {
            callee: Box::new(call.callee.view()),
            paren: call.paren@,
            arguments: expr_views(call.arguments@),
        }),
{
    assert(Expr::Call(call).view()->Call_arguments =~= expr_views(call.arguments@));
}

} // verus!
