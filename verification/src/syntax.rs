//! Any node of the syntax tree.

use crate::clause::{ColumnClause, ColumnClauseView};
use crate::expr::IdExpr;
use crate::stmt::{CreateTableStmt, CreateTableStmtView, Stmt};
use vstd::prelude::*;

verus! {

/// Any node of the syntax tree.
#[derive(Debug, PartialEq, Eq)]
pub enum SyntaxNode {
    Stmt(Stmt),
    CreateTableStmt(CreateTableStmt),
    ColumnClause(ColumnClause),
    IdExpr(IdExpr),
}

/// A node of the syntax tree as plain values.
pub enum SyntaxNodeView {
    Stmt(CreateTableStmtView),
    CreateTableStmt(CreateTableStmtView),
    ColumnClause(ColumnClauseView),
    IdExpr(Seq<char>),
}

impl View for SyntaxNode {
    type V = SyntaxNodeView;

    open spec fn view(&self) -> SyntaxNodeView {
        match self {
            SyntaxNode::Stmt(stmt) => SyntaxNodeView::Stmt(stmt@),
            SyntaxNode::CreateTableStmt(stmt) => SyntaxNodeView::CreateTableStmt(stmt@),
            SyntaxNode::ColumnClause(column) => SyntaxNodeView::ColumnClause(column@),
            SyntaxNode::IdExpr(name) => SyntaxNodeView::IdExpr(name@),
        }
    }
}

impl Clone for SyntaxNode {
    fn clone(&self) -> (r: Self)
        ensures
            r@ == self@,
    {
        match self {
            SyntaxNode::Stmt(stmt) => SyntaxNode::Stmt(stmt.clone()),
            SyntaxNode::CreateTableStmt(stmt) => SyntaxNode::CreateTableStmt(stmt.clone()),
            SyntaxNode::ColumnClause(column) => SyntaxNode::ColumnClause(column.clone()),
            SyntaxNode::IdExpr(name) => SyntaxNode::IdExpr(name.clone()),
        }
    }
}

} // verus!
