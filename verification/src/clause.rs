//! The column clause of the syntax tree.

use crate::expr::IdExpr;
use vstd::prelude::*;

verus! {

/// One column of a table: its name and the name of its data type.
#[derive(Debug, PartialEq, Eq)]
pub struct ColumnClause {
    pub name: IdExpr,
    pub data_type: IdExpr,
}

/// A column clause as plain values.
pub struct ColumnClauseView {
    pub name: Seq<char>,
    pub data_type: Seq<char>,
}

impl View for ColumnClause {
    type V = ColumnClauseView;

    open spec fn view(&self) -> ColumnClauseView {
        ColumnClauseView { name: self.name@, data_type: self.data_type@ }
    }
}

impl DeepView for ColumnClause {
    type V = ColumnClauseView;

    open spec fn deep_view(&self) -> ColumnClauseView {
        self@
    }
}

impl Clone for ColumnClause {
    fn clone(&self) -> (r: Self)
        ensures
            r == *self,
    {
        ColumnClause { name: self.name.clone(), data_type: self.data_type.clone() }
    }
}

} // verus!
