//! The kinds of node, among them the rules of the grammar.

use crate::err::{SqlErr, SqlErrView};
use crate::grammar::{reduced, SqlGrammar, SqlGrammarView};
use crate::grammar_pattern::{
    lemma_definition_reducible, lemma_definition_well_formed, GrammarPattern,
};
use crate::letter::{SqlLetter, SqlLetterView};
use vstd::prelude::*;

verus! {

/// The kinds of node that matching produces: a token, a plain sequence,
/// and one kind for each rule of the grammar.
#[derive(Debug, Clone, Copy, PartialEq, Eq, Structural)]
pub enum GrammarId {
    /// A token.
    Letter,
    /// A plain sequence of nodes.
    Vec,
    /// The rule of a statement that creates a table.
    CreateTableStmt,
    /// The rule of a column of a table.
    ColumnClause,
    /// The rule of an identifier.
    IdExpr,
}

impl GrammarId {
    /// Whether the kind names a rule of the grammar, with a definition of
    /// its own.
    pub open spec fn is_rule(self) -> bool {
        self == GrammarId::CreateTableStmt || self == GrammarId::ColumnClause || self
            == GrammarId::IdExpr
    }

    /// How deep the rules nest below this kind: a rule refers only to
    /// rules of a smaller rank.
    pub open spec fn rank(self) -> nat {
        match self {
            GrammarId::Letter => 0,
            GrammarId::Vec => 0,
            GrammarId::IdExpr => 1,
            GrammarId::ColumnClause => 2,
            GrammarId::CreateTableStmt => 3,
        }
    }

    /// The name under which a kind appears in messages.
    pub open spec fn spec_name(self) -> Seq<char> {
        match self {
            GrammarId::Letter => "Letter"@,
            GrammarId::Vec => "Vector"@,
            GrammarId::CreateTableStmt => "Create Table Statement"@,
            GrammarId::ColumnClause => "Column Clause"@,
            GrammarId::IdExpr => "Identity Expression"@,
        }
    }

    /// The name under which the kind appears in messages.
    pub fn name(&self) -> (r: &'static str)
        ensures
            r@ == self.spec_name(),
    {
        match self {
            GrammarId::Letter => "Letter",
            GrammarId::Vec => "Vector",
            GrammarId::CreateTableStmt => "Create Table Statement",
            GrammarId::ColumnClause => "Column Clause",
            GrammarId::IdExpr => "Identity Expression",
        }
    }

    /// What the rule makes of the tokens `ts`: it matches its definition
    /// from the first token on and makes its node of what that gives.
    /// Tokens that are left over are a syntax error at the offset where
    /// the match ended.
    pub open spec fn parsed(self, ts: Seq<SqlLetterView>) -> Result<SqlGrammarView, SqlErrView> {
        match self.definition().try_match(ts, 0, 0).result {
            Ok((node, end)) => if end < last_end(ts) {
                Err(SqlErrView::Syntax(end))
            } else {
                Ok(reduced(self, node))
            },
            Err(err) => Err(err),
        }
    }

    /// Matches the rule against all of `letters`.
    pub fn matches(&self, letters: &Vec<SqlLetter>) -> (r: Result<SqlGrammar, SqlErr>)
        requires
            self.is_rule(),
        ensures
            node_or_error(r) == self.parsed(letters.deep_view()),
    {
        proof {
            lemma_definition_well_formed(*self);
            lemma_definition_reducible(*self, letters.deep_view(), 0, 0);
        }
        let mut cursor: usize = 0;
        match GrammarPattern::from(*self).try_match(letters, &mut cursor, 0) {
            Ok((grammar, end)) => {
                let last = if letters.len() == 0 {
                    0
                } else {
                    letters[letters.len() - 1].end()
                };
                if end < last {
                    Err(SqlErr::Syntax(end))
                } else {
                    Ok(SqlGrammar::reduce(*self, grammar))
                }
            },
            Err(err) => Err(err),
        }
    }
}

/// The offset at which the last token of `ts` ends, or 0 where there is
/// no token.
pub open spec fn last_end(ts: Seq<SqlLetterView>) -> int {
    if ts.len() == 0 {
        0
    } else {
        ts.last().end
    }
}

/// A node or an error, as plain values.
pub open spec fn node_or_error(r: Result<SqlGrammar, SqlErr>) -> Result<
    SqlGrammarView,
    SqlErrView,
> {
    match r {
        Ok(node) => Ok(node@),
        Err(err) => Err(err@),
    }
}

} // verus!
