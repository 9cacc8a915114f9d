//! Tokens.

use crate::letter_id::LetterId;
use core::ops::Range;
use vstd::prelude::*;
use vstd::std_specs::convert::FromSpecImpl;

verus! {

/// A token: its kind, the half-open range of character offsets that it
/// covers in the source text, and the text that it was made with.
#[derive(Debug, PartialEq, Eq)]
pub enum SqlLetter {
    Create(usize, usize, String),
    Table(usize, usize, String),
    Comma(usize, usize, String),
    ParenL(usize, usize, String),
    ParenR(usize, usize, String),
    Id(usize, usize, String),
    Skip(usize, usize, String),
}

/// What a token is, as plain values.
pub struct SqlLetterView {
    pub id: LetterId,
    pub start: int,
    pub end: int,
    pub text: Seq<char>,
}

impl View for SqlLetter {
    type V = SqlLetterView;

    open spec fn view(&self) -> SqlLetterView {
        match self {
            SqlLetter::Create(start, end, text) => SqlLetterView {
                id: LetterId::Create,
                start: *start as int,
                end: *end as int,
                text: text@,
            },
            SqlLetter::Table(start, end, text) => SqlLetterView {
                id: LetterId::Table,
                start: *start as int,
                end: *end as int,
                text: text@,
            },
            SqlLetter::Comma(start, end, text) => SqlLetterView {
                id: LetterId::Comma,
                start: *start as int,
                end: *end as int,
                text: text@,
            },
            SqlLetter::ParenL(start, end, text) => SqlLetterView {
                id: LetterId::ParenL,
                start: *start as int,
                end: *end as int,
                text: text@,
            },
            SqlLetter::ParenR(start, end, text) => SqlLetterView {
                id: LetterId::ParenR,
                start: *start as int,
                end: *end as int,
                text: text@,
            },
            SqlLetter::Id(start, end, text) => SqlLetterView {
                id: LetterId::Id,
                start: *start as int,
                end: *end as int,
                text: text@,
            },
            SqlLetter::Skip(start, end, text) => SqlLetterView {
                id: LetterId::Skip,
                start: *start as int,
                end: *end as int,
                text: text@,
            },
        }
    }
}

impl DeepView for SqlLetter {
    type V = SqlLetterView;

    open spec fn deep_view(&self) -> SqlLetterView {
        self@
    }
}

impl Clone for SqlLetter {
    fn clone(&self) -> (r: Self)
        ensures
            r == *self,
    {
        match self {
            SqlLetter::Create(start, end, text) => SqlLetter::Create(*start, *end, text.clone()),
            SqlLetter::Table(start, end, text) => SqlLetter::Table(*start, *end, text.clone()),
            SqlLetter::Comma(start, end, text) => SqlLetter::Comma(*start, *end, text.clone()),
            SqlLetter::ParenL(start, end, text) => SqlLetter::ParenL(*start, *end, text.clone()),
            SqlLetter::ParenR(start, end, text) => SqlLetter::ParenR(*start, *end, text.clone()),
            SqlLetter::Id(start, end, text) => SqlLetter::Id(*start, *end, text.clone()),
            SqlLetter::Skip(start, end, text) => SqlLetter::Skip(*start, *end, text.clone()),
        }
    }
}

/// The range of character offsets that a token covers.
impl From<SqlLetter> for Range<usize> {
    fn from(value: SqlLetter) -> (r: Self)
        ensures
            r.start == value@.start,
            r.end == value@.end,
    {
        match value {
            SqlLetter::Create(start, end, _) => start..end,
            SqlLetter::Table(start, end, _) => start..end,
            SqlLetter::Comma(start, end, _) => start..end,
            SqlLetter::ParenL(start, end, _) => start..end,
            SqlLetter::ParenR(start, end, _) => start..end,
            SqlLetter::Id(start, end, _) => start..end,
            SqlLetter::Skip(start, end, _) => start..end,
        }
    }
}

impl FromSpecImpl<SqlLetter> for Range<usize> {
    open spec fn obeys_from_spec() -> bool {
        true
    }

    open spec fn from_spec(value: SqlLetter) -> Self {
        Range { start: value@.start as usize, end: value@.end as usize }
    }
}

/// A token of the given kind over the given range, with a copy of the
/// given text. Nothing ties the range to the text here: the lexer does.
impl From<(LetterId, Range<usize>, &str)> for SqlLetter {
    fn from(value: (LetterId, Range<usize>, &str)) -> (r: Self)
        ensures
            r@ == (SqlLetterView {
                id: value.0,
                start: value.1.start as int,
                end: value.1.end as int,
                text: value.2@,
            }),
    {
        let (id, range, text) = value;
        let start = range.start;
        let end = range.end;
        let s = text.to_string();
        match id {
            LetterId::Create => SqlLetter::Create(start, end, s),
            LetterId::Table => SqlLetter::Table(start, end, s),
            LetterId::Comma => SqlLetter::Comma(start, end, s),
            LetterId::ParenL => SqlLetter::ParenL(start, end, s),
            LetterId::ParenR => SqlLetter::ParenR(start, end, s),
            LetterId::Id => SqlLetter::Id(start, end, s),
            LetterId::Skip => SqlLetter::Skip(start, end, s),
        }
    }
}

/// A string is known by its characters only, so the conversion is stated
/// over the token's view, on `from` itself.
impl FromSpecImpl<(LetterId, Range<usize>, &str)> for SqlLetter {
    open spec fn obeys_from_spec() -> bool {
        false
    }

    open spec fn from_spec(value: (LetterId, Range<usize>, &str)) -> Self {
        arbitrary()
    }
}

impl SqlLetter {
    /// Whether the token is of the given kind.
    pub fn is(&self, id: &LetterId) -> (r: bool)
        ensures
            r == (self@.id == *id),
    {
        match (self, id) {
            (SqlLetter::Create(_, _, _), LetterId::Create) => true,
            (SqlLetter::Table(_, _, _), LetterId::Table) => true,
            (SqlLetter::Comma(_, _, _), LetterId::Comma) => true,
            (SqlLetter::ParenL(_, _, _), LetterId::ParenL) => true,
            (SqlLetter::ParenR(_, _, _), LetterId::ParenR) => true,
            (SqlLetter::Id(_, _, _), LetterId::Id) => true,
            (SqlLetter::Skip(_, _, _), LetterId::Skip) => true,
            _ => false,
        }
    }

    /// The offset of the token's first character.
    pub fn start(&self) -> (r: usize)
        ensures
            r == self@.start,
    {
        match self {
            SqlLetter::Create(start, _, _) => *start,
            SqlLetter::Table(start, _, _) => *start,
            SqlLetter::Comma(start, _, _) => *start,
            SqlLetter::ParenL(start, _, _) => *start,
            SqlLetter::ParenR(start, _, _) => *start,
            SqlLetter::Id(start, _, _) => *start,
            SqlLetter::Skip(start, _, _) => *start,
        }
    }

    /// The offset just after the token's last character.
    pub fn end(&self) -> (r: usize)
        ensures
            r == self@.end,
    {
        match self {
            SqlLetter::Create(_, end, _) => *end,
            SqlLetter::Table(_, end, _) => *end,
            SqlLetter::Comma(_, end, _) => *end,
            SqlLetter::ParenL(_, end, _) => *end,
            SqlLetter::ParenR(_, end, _) => *end,
            SqlLetter::Id(_, end, _) => *end,
            SqlLetter::Skip(_, end, _) => *end,
        }
    }
}

} // verus!
