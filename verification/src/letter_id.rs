//! The kinds of token, in the order in which the lexer tries them.

use crate::letter::{SqlLetter, SqlLetterView};
use crate::letter_pattern::LetterPattern;
use vstd::prelude::*;
use vstd::string::StrSliceExecFns;

verus! {

/// The kinds of token that the lexer tells apart.
#[derive(Debug, Clone, Copy, PartialEq, Eq, Structural)]
pub enum LetterId {
    /// The keyword `CREATE`.
    Create,
    /// The keyword `TABLE`.
    Table,
    /// A comma.
    Comma,
    /// An opening parenthesis.
    ParenL,
    /// A closing parenthesis.
    ParenR,
    /// An identifier.
    Id,
    /// White space.
    Skip,
}

impl LetterId {
    /// Every token kind, in the order in which the lexer tries them.
    /// Keywords stand before `Id`, whose pattern matches their text too.
    pub open spec fn priority() -> Seq<LetterId> {
        seq![
            LetterId::Create,
            LetterId::Table,
            LetterId::Comma,
            LetterId::ParenL,
            LetterId::ParenR,
            LetterId::Id,
            LetterId::Skip,
        ]
    }

    /// The name under which a token kind appears in error messages.
    pub open spec fn spec_name(self) -> Seq<char> {
        match self {
            LetterId::Create => "CREATE"@,
            LetterId::Table => "TABLE"@,
            LetterId::Comma => "COMMA"@,
            LetterId::ParenL => "LEFT PAREN"@,
            LetterId::ParenR => "RIGHT PAREN"@,
            LetterId::Id => "ID"@,
            LetterId::Skip => "SKIP"@,
        }
    }

    /// Every token kind, in the order in which the lexer tries them.
    pub fn all() -> (r: Vec<Self>)
        ensures
            r@ == Self::priority(),
    {
        let mut ids: Vec<LetterId> = Vec::new();
        ids.push(LetterId::Create);
        ids.push(LetterId::Table);
        ids.push(LetterId::Comma);
        ids.push(LetterId::ParenL);
        ids.push(LetterId::ParenR);
        ids.push(LetterId::Id);
        ids.push(LetterId::Skip);
        assert(ids@ =~= Self::priority());
        ids
    }

    /// The name under which the kind appears in error messages.
    pub fn name(&self) -> (r: &'static str)
        ensures
            r@ == self.spec_name(),
    {
        match self {
            LetterId::Create => "CREATE",
            LetterId::Table => "TABLE",
            LetterId::Comma => "COMMA",
            LetterId::ParenL => "LEFT PAREN",
            LetterId::ParenR => "RIGHT PAREN",
            LetterId::Id => "ID",
            LetterId::Skip => "SKIP",
        }
    }

    /// The token of this kind that starts at offset `start` of `s`: it
    /// covers what the kind's pattern matches there. `None` where the
    /// pattern does not match.
    pub open spec fn scan(self, s: Seq<char>, start: int) -> Option<SqlLetterView> {
        match self.pattern().matches(s, start) {
            Some(end) => Some(SqlLetterView { id: self, start, end, text: s.subrange(start, end) }),
            None => None,
        }
    }

    /// A token that was scanned covers at least one character, lies
    /// inside the text, and holds the text that it covers.
    pub proof fn lemma_scan_token(self, s: Seq<char>, start: int)
        requires
            0 <= start,
        ensures
            self.scan(s, start) matches Some(t) ==> {
                &&& t.id == self
                &&& t.start == start
                &&& start < t.end <= s.len()
                &&& t.text == s.subrange(t.start, t.end)
                &&& t.text.len() == t.end - t.start
            },
    {
        self.lemma_pattern_consumes();
        self.pattern().lemma_match_moves(s, start);
    }

    /// Matches the pattern of this kind against `s` from the character
    /// offset `start` and makes the token of what it consumed.
    pub fn matches(&self, s: &str, start: usize) -> (r: Option<SqlLetter>)
        ensures
            r.deep_view() == self.scan(s@, start as int),
            r matches Some(letter) ==> {
                &&& letter@.id == *self
                &&& letter@.start == start
                &&& start < letter@.end <= s@.len()
                &&& letter@.text == s@.subrange(start as int, letter@.end)
            },
    {
        proof {
            self.lemma_scan_token(s@, start as int);
            self.lemma_pattern_consumes();
        }
        let (matched, end) = LetterPattern::from(*self).matches(s, start);
        if matched {
            Some(SqlLetter::from((*self, start..end, s.substring_char(start, end))))
        } else {
            None
        }
    }
}

} // verus!
