//! The statements of the syntax tree.

use crate::clause::{ColumnClause, ColumnClauseView};
use crate::expr::IdExpr;
use vstd::prelude::*;

verus! {

/// A statement.
#[derive(Debug, PartialEq, Eq)]
pub enum Stmt {
    CreateTable(CreateTableStmt),
}

/// A statement that creates a table: the table's name and its columns in
/// the order in which the text gives them.
#[derive(Debug, PartialEq, Eq)]
pub struct CreateTableStmt {
    pub name: IdExpr,
    pub columns: Vec<ColumnClause>,
}

/// A statement that creates a table, as plain values.
pub struct CreateTableStmtView {
    pub name: Seq<char>,
    pub columns: Seq<ColumnClauseView>,
}

impl View for CreateTableStmt {
    type V = CreateTableStmtView;

    open spec fn view(&self) -> CreateTableStmtView {
        CreateTableStmtView { name: self.name@, columns: self.columns.deep_view() }
    }
}

impl DeepView for CreateTableStmt {
    type V = CreateTableStmtView;

    open spec fn deep_view(&self) -> CreateTableStmtView {
        self@
    }
}

impl Clone for CreateTableStmt {
    fn clone(&self) -> (r: Self)
        ensures
            r@ == self@,
    {
        let mut columns: Vec<ColumnClause> = Vec::new();
        let mut i: usize = 0;
        while i < self.columns.len()
            invariant
                i <= self.columns.len(),
                columns.len() == i,
                forall|j: int| 0 <= j < i ==> columns[j]@ == self.columns[j]@,
            decreases self.columns.len() - i,
        {
            columns.push(self.columns[i].clone());
            i += 1;
        }
        assert(columns.deep_view() =~= self.columns.deep_view());
        CreateTableStmt { name: self.name.clone(), columns }
    }
}

impl View for Stmt {
    type V = CreateTableStmtView;

    open spec fn view(&self) -> CreateTableStmtView {
        match self {
            Stmt::CreateTable(stmt) => stmt@,
        }
    }
}

impl Clone for Stmt {
    fn clone(&self) -> (r: Self)
        ensures
            r@ == self@,
    {
        match self {
            Stmt::CreateTable(stmt) => Stmt::CreateTable(stmt.clone()),
        }
    }
}

} // verus!
