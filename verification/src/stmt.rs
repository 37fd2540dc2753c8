//! Statement trees.
use vstd::prelude::*;
use std::rc::Rc;
use crate::expr::Expr;
use crate::expr::ExprView;
use crate::token::views;
use crate::token::Token;
use crate::token::TokenView;

verus! {

/// A statement. There is no `for`: the parser writes it as a `while`.
#[derive(Debug)]
pub enum Stmt {
    Block(BlockStmt),
    Expression(ExpressionStmt),
    Function(FunctionStmt),
    If(IfStmt),
    Print(PrintStmt),
    Var(VarStmt),
    Return(ReturnStmt),
    Break(BreakStmt),
    While(WhileStmt),
}

/// `{ statements }`.
#[derive(Debug)]
pub struct BlockStmt {
    pub statements: Rc<Vec<Rc<Stmt>>>,
}

/// `expression ;`.
#[derive(Debug)]
pub struct ExpressionStmt {
    pub expression: Rc<Expr>,
}

/// `func name ( params ) { body }`. Parameters and body are shared with the
/// function values that the declaration makes.
#[derive(Debug)]
pub struct FunctionStmt {
    pub name: Token,
    pub params: Rc<Vec<Token>>,
    pub body: Rc<Vec<Rc<Stmt>>>,
}

/// `if ( condition ) then_branch else else_branch`.
#[derive(Debug)]
pub struct IfStmt {
    pub condition: Rc<Expr>,
    pub then_branch: Rc<Stmt>,
    pub else_branch: Option<Rc<Stmt>>,
}

/// `print expression ;`.
#[derive(Debug)]
pub struct PrintStmt {
    pub expression: Rc<Expr>,
}

/// `var name = initializer ;`.
#[derive(Debug)]
pub struct VarStmt {
    pub name: Token,
    pub initializer: Option<Rc<Expr>>,
}

/// `return value ;`; `name` is the keyword, for the line.
#[derive(Debug)]
pub struct ReturnStmt {
    pub name: Token,
    pub value: Option<Rc<Expr>>,
}

/// `break ;`.
#[derive(Debug)]
pub struct BreakStmt {
    pub u: usize,
}

/// `while ( condition ) body`.
#[derive(Debug)]
pub struct WhileStmt {
    pub condition: Rc<Expr>,
    pub body: Rc<Stmt>,
}

/// A statement as a mathematical tree.
#[allow(inconsistent_fields)]
pub enum StmtView {
    Block { statements: Seq<StmtView> },
    Expression { expression: ExprView },
    Function { name: TokenView, params: Seq<TokenView>, body: Seq<StmtView> },
    If { condition: ExprView, then_branch: Box<StmtView>, else_branch: Option<Box<StmtView>> },
    Print { expression: ExprView },
    Var { name: TokenView, initializer: Option<ExprView> },
    Return { name: TokenView, value: Option<ExprView> },
    Break { u: usize },
    While { condition: ExprView, body: Box<StmtView> },
}

/// The view of an optional expression.
pub open spec fn optional_view(expr: Option<Rc<Expr>>) -> Option<ExprView> {
    match expr {
        Some(e) => Some(e.view()),
        None => None,
    }
}

impl Stmt {
    /// The tree that the statement stands for.
    pub open spec fn view(&self) -> StmtView
        decreases self,
    {
        match self {
            Stmt::Block(s) => StmtView::Block {
                statements: Seq::new(
                    s.statements@.len(),
                    |i: int|
                        if 0 <= i < s.statements@.len() {
                            s.statements@[i].view()
                        } else {
                            arbitrary()
                        },
                ),
            },
            Stmt::Expression(s) => StmtView::Expression { expression: s.expression.view() },
            Stmt::Function(s) => StmtView::Function {
                name: s.name@,
                params: views(s.params@),
                body: Seq::new(
                    s.body@.len(),
                    |i: int|
                        if 0 <= i < s.body@.len() {
                            s.body@[i].view()
                        } else {
                            arbitrary()
                        },
                ),
            },
            Stmt::If(s) => StmtView::If {
                condition: s.condition.view(),
                then_branch: Box::new(s.then_branch.view()),
                else_branch: match s.else_branch {
                    Some(branch) => Some(Box::new(branch.view())),
                    None => None,
                },
            },
            Stmt::Print(s) => StmtView::Print { expression: s.expression.view() },
            Stmt::Var(s) => StmtView::Var { name: s.name@, initializer: optional_view(s.initializer) },
            Stmt::Return(s) => StmtView::Return { name: s.name@, value: optional_view(s.value) },
            Stmt::Break(s) => StmtView::Break { u: s.u },
            Stmt::While(s) => StmtView::While {
                condition: s.condition.view(),
                body: Box::new(s.body.view()),
            },
        }
    }
}

/// The views of a run of shared statements, in order.
pub open spec fn stmt_views(stmts: Seq<Rc<Stmt>>) -> Seq<StmtView> {
    Seq::new(stmts.len(), |i: int| stmts[i].view())
}

/// The views of a run of statements, in order.
pub open spec fn program_view(stmts: Seq<Stmt>) -> Seq<StmtView> {
    Seq::new(stmts.len(), |i: int| stmts[i].view())
}

/// The views of a run that was extended by one shared statement.
pub proof fn lemma_stmt_views_push(stmts: Seq<Rc<Stmt>>, stmt: Rc<Stmt>)
    ensures
        stmt_views(stmts.push(stmt)) == stmt_views(stmts).push(stmt.view()),
{
    assert(stmt_views(stmts.push(stmt)) =~= stmt_views(stmts).push(stmt.view()));
}

/// The views of a run that was extended by one statement.
pub proof fn lemma_program_view_push(stmts: Seq<Stmt>, stmt: Stmt)
    ensures
        program_view(stmts.push(stmt)) == program_view(stmts).push(stmt.view()),
{
    assert(program_view(stmts.push(stmt)) =~= program_view(stmts).push(stmt.view()));
}

/// The view of a block lists the views of its statements.
pub proof fn lemma_block_view(block: BlockStmt)
    ensures
        Stmt::Block(block).view() == (StmtView::Block {
            statements: stmt_views(block.statements@),
        }),
{
    assert(Stmt::Block(block).view()->Block_statements =~= stmt_views(block.statements@));
}

/// The view of a function declaration lists the views of its body.
pub proof fn lemma_function_view(function: FunctionStmt)
    ensures
        Stmt::Function(function).view() == (StmtView::Function {
            name: function.name@,
            params: views(function.params@),
            body: stmt_views(function.body@),
        }),
{
    assert(Stmt::Function(function).view()->Function_body =~= stmt_views(function.body@));
}

} // verus!
