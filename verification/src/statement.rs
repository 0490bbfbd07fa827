//! Statements: the statement AST and its mathematical shape.

use vstd::prelude::*;

use crate::expr::{expr_view, Expr, ExprV};

verus! {

/// The statement AST.
pub enum Statement {
    Expression { expression: Expr },
    Print { expression: Expr },
    Var { indentifier: String, expression: Expr },
    Assert { expression_a: Expr },
    Block { statements: Vec<Statement> },
    If { conditional: Expr, happy_path: Box<Statement>, sad_path: Option<Box<Statement>> },
    While { predicate: Expr, happy_path: Box<Statement> },
}

/// The mathematical shape of a statement.
#[verifier::ext_equal]
pub enum StmtV {
    Expression { expression: ExprV },
    Print { expression: ExprV },
    Var { indentifier: Seq<char>, expression: ExprV },
    Assert { expression_a: ExprV },
    Block { statements: Seq<StmtV> },
    If { conditional: ExprV, happy_path: Box<StmtV>, sad_path: Option<Box<StmtV>> },
    While { predicate: ExprV, happy_path: Box<StmtV> },
}

/// The view of a statement.
pub open spec fn stmt_view(s: Statement) -> StmtV
    decreases s,
{
    match s {
        Statement::Expression { expression } => StmtV::Expression {
            expression: expr_view(expression),
        },
        Statement::Print { expression } => StmtV::Print { expression: expr_view(expression) },
        Statement::Var { indentifier, expression } => StmtV::Var {
            indentifier: indentifier@,
            expression: expr_view(expression),
        },
        Statement::Assert { expression_a } => StmtV::Assert {
            expression_a: expr_view(expression_a),
        },
        Statement::Block { statements } => StmtV::Block {
            statements: stmts_view_from(statements@, 0),
        },
        Statement::If { conditional, happy_path, sad_path } => StmtV::If {
            conditional: expr_view(conditional),
            happy_path: Box::new(stmt_view(*happy_path)),
            sad_path: match sad_path {
                Some(s) => Some(Box::new(stmt_view(*s))),
                None => None,
            },
        },
        Statement::While { predicate, happy_path } => StmtV::While {
            predicate: expr_view(predicate),
            happy_path: Box::new(stmt_view(*happy_path)),
        },
    }
}

/// The views of the statements of `v` from index `i` on.
pub open spec fn stmts_view_from(v: Seq<Statement>, i: int) -> Seq<StmtV>
    decreases v, v.len() - i,
{
    if i < 0 || i >= v.len() {
        Seq::empty()
    } else {
        seq![stmt_view(v[i])] + stmts_view_from(v, i + 1)
    }
}

/// The view of a statement sequence.
pub open spec fn stmts_view(v: Seq<Statement>) -> Seq<StmtV> {
    stmts_view_from(v, 0)
}

impl View for Statement {
    type V = StmtV;

    open spec fn view(&self) -> StmtV {
        stmt_view(*self)
    }
}

/// How `stmts_view_from` relates to the elements: one view per statement,
/// in order.
pub proof fn lemma_stmts_view_from(v: Seq<Statement>, i: int)
    requires
        0 <= i <= v.len(),
    ensures
        stmts_view_from(v, i).len() == v.len() - i,
        forall|j: int|
            i <= j < v.len() ==> stmts_view_from(v, i)[j - i] == stmt_view(v[j]),
    decreases v.len() - i,
{
    if i < v.len() {
        lemma_stmts_view_from(v, i + 1);
    }
}

/// The view of a statement sequence, element by element.
pub proof fn lemma_stmts_view(v: Seq<Statement>)
    ensures
        stmts_view(v).len() == v.len(),
        forall|j: int| 0 <= j < v.len() ==> stmts_view(v)[j] == stmt_view(v[j]),
{
    lemma_stmts_view_from(v, 0);
}

} // verus!
