//! Patterns over tokens: what a match is, what holds of every match, and
//! the matcher.
//!
//! A match is tried against a cursor, the index of the next token, from a
//! character offset, the end of the last token taken. Repetition tries
//! each match on a copy of the cursor and moves the cursor only where the
//! match succeeded.

use crate::err::{SqlErr, SqlErrView};
use crate::grammar::{
    in_order, lemma_idents_of_idents, lemma_sequence_view, lemma_spliced_flat,
    lemma_spliced_in_order, lemma_spliced_keeps_ident, lemma_spliced_plain, reduced, reducible,
    spliced, SqlGrammar, SqlGrammarView,
};
use crate::grammar_id::GrammarId;
use crate::letter::{SqlLetter, SqlLetterView};
use crate::letter_id::LetterId;
use vstd::prelude::*;

verus! {

/// A pattern over the tokens of a text.
#[derive(Debug, PartialEq, Eq)]
pub enum GrammarPattern {
    /// One token of the given kind.
    Letter(LetterId),
    /// What the rule of the given kind is defined as, made into the
    /// rule's node.
    Grammar(GrammarId),
    /// The patterns one after the other.
    And(Vec<Box<GrammarPattern>>),
    /// The pattern as often as it matches, possibly never.
    Any(Box<GrammarPattern>),
}

/// A token pattern as a mathematical value.
pub enum GrammarPatternView {
    Letter(LetterId),
    Grammar(GrammarId),
    And(Seq<GrammarPatternView>),
    Any(Box<GrammarPatternView>),
}

/// How an attempt to match one pattern came out: the node and the offset
/// at which it ends, or the error; and the index of the next token that
/// the cursor would hand out afterwards.
pub struct Attempt {
    pub result: Result<(SqlGrammarView, int), SqlErrView>,
    pub cursor: int,
}

/// How an attempt to match patterns one after the other came out: their
/// nodes in order and the offset at which the last ends, or the first
/// error; and the cursor afterwards.
pub struct Attempts {
    pub result: Result<(Seq<SqlGrammarView>, int), SqlErrView>,
    pub cursor: int,
}

/// What repeating a pattern gave: the nodes in order, the offset at which
/// the last ends, and the cursor afterwards.
pub struct Repeats {
    pub nodes: Seq<SqlGrammarView>,
    pub end: int,
    pub cursor: int,
}

impl GrammarId {
    /// What a rule of the grammar is defined as. Only a rule has a
    /// definition.
    pub open spec fn definition(self) -> GrammarPatternView {
        match self {
            GrammarId::CreateTableStmt => GrammarPatternView::And(
                seq![
                    GrammarPatternView::Letter(LetterId::Create),
                    GrammarPatternView::Letter(LetterId::Table),
                    GrammarPatternView::Grammar(GrammarId::IdExpr),
                    GrammarPatternView::Letter(LetterId::ParenL),
                    GrammarPatternView::Any(
                        Box::new(
                            GrammarPatternView::And(
                                seq![
                                    GrammarPatternView::Grammar(GrammarId::ColumnClause),
                                    GrammarPatternView::Letter(LetterId::Comma),
                                ],
                            ),
                        ),
                    ),
                    GrammarPatternView::Grammar(GrammarId::ColumnClause),
                    GrammarPatternView::Letter(LetterId::ParenR),
                ],
            ),
            GrammarId::ColumnClause => GrammarPatternView::And(
                seq![
                    GrammarPatternView::Grammar(GrammarId::IdExpr),
                    GrammarPatternView::Grammar(GrammarId::IdExpr),
                ],
            ),
            GrammarId::IdExpr => GrammarPatternView::Letter(LetterId::Id),
            _ => arbitrary(),
        }
    }
}

impl GrammarPatternView {
    /// The greatest rank of a rule that the pattern refers to.
    pub open spec fn level(self) -> nat
        decreases self,
    {
        match self {
            GrammarPatternView::Letter(_) => 0,
            GrammarPatternView::Grammar(id) => id.rank(),
            GrammarPatternView::And(ps) => Self::max_level(ps),
            GrammarPatternView::Any(p) => p.level(),
        }
    }

    /// The greatest level among the patterns of `ps`.
    pub open spec fn max_level(ps: Seq<GrammarPatternView>) -> nat
        decreases ps,
    {
        if ps.len() == 0 {
            0
        } else if ps[0].level() >= Self::max_level(ps.drop_first()) {
            ps[0].level()
        } else {
            Self::max_level(ps.drop_first())
        }
    }
}

impl GrammarPatternView {
    /// No pattern of `ps` lies above their greatest level, and what
    /// bounds the level of each bounds the greatest.
    pub proof fn lemma_max_level(ps: Seq<GrammarPatternView>, bound: nat)
        ensures
            forall|i: int| 0 <= i < ps.len() ==> (#[trigger] ps[i]).level() <= Self::max_level(ps),
            (forall|i: int| 0 <= i < ps.len() ==> (#[trigger] ps[i]).level() <= bound)
                ==> Self::max_level(ps) <= bound,
        decreases ps.len(),
    {
        if ps.len() > 0 {
            let rest = ps.drop_first();
            Self::lemma_max_level(rest, bound);
            assert forall|i: int| 0 <= i < ps.len() implies (#[trigger] ps[i]).level()
                <= Self::max_level(ps) by {
                if i > 0 {
                    assert(rest[i - 1] == ps[i]);
                }
            }
            if forall|i: int| 0 <= i < ps.len() ==> (#[trigger] ps[i]).level() <= bound {
                assert forall|i: int| 0 <= i < rest.len() implies (#[trigger] rest[i]).level()
                    <= bound by {
                    assert(rest[i] == ps[i + 1]);
                }
            }
        }
    }
}

/// The definition of a rule refers only to rules of a smaller rank.
pub proof fn lemma_definition_level(id: GrammarId)
    requires
        id.is_rule(),
    ensures
        id.definition().level() < id.rank(),
{
    reveal_with_fuel(GrammarPatternView::level, 2);
    if id == GrammarId::ColumnClause {
        GrammarPatternView::lemma_max_level(id.definition()->And_0, 1);
    } else if id == GrammarId::CreateTableStmt {
        let ps = id.definition()->And_0;
        GrammarPatternView::lemma_max_level(ps[4]->Any_0->And_0, 2);
        GrammarPatternView::lemma_max_level(ps, 2);
    }
}

impl GrammarPatternView {
    /// An attempt to match the pattern against the tokens `ts`, the first
    /// of them the one at index `cursor`, from the character offset `n`.
    ///
    /// A token pattern takes one token. It succeeds where the token is of
    /// its kind, with a token node that covers what the token covers, and
    /// ends where the token ends. Where the token is of another kind or
    /// there is none, the token of its kind is missing at `n`.
    ///
    /// A rule matches what it is defined as and makes its own node of the
    /// node that this gives. A kind that is no rule has no definition:
    /// a pattern that refers to one is not well formed, and matches
    /// nothing.
    ///
    /// A sequence matches its patterns in order, each from where the one
    /// before it ended. The first error is the error of the sequence.
    ///
    /// A repetition never fails: it gives the nodes of as many matches
    /// as there are, one after the other.
    pub open spec fn try_match(self, ts: Seq<SqlLetterView>, cursor: int, n: int) -> Attempt
        decreases self.level(), self, 0int, 0int,
    {
        match self {
            GrammarPatternView::Letter(id) => if 0 <= cursor < ts.len() {
                if ts[cursor].id == id {
                    Attempt {
                        result: Ok(
                            (
                                SqlGrammarView::Letter(
                                    ts[cursor].start,
                                    ts[cursor].end,
                                    ts[cursor],
                                ),
                                ts[cursor].end,
                            ),
                        ),
                        cursor: cursor + 1,
                    }
                } else {
                    Attempt { result: Err(SqlErrView::Miss(n, id.spec_name())), cursor: cursor + 1 }
                }
            } else {
                Attempt { result: Err(SqlErrView::Miss(n, id.spec_name())), cursor }
            },
            GrammarPatternView::Grammar(id) => if id.is_rule() {
                proof {
                    lemma_definition_level(id);
                }
                let inner = id.definition().try_match(ts, cursor, n);
                match inner.result {
                    Ok((node, end)) => Attempt {
                        result: Ok((reduced(id, node), end)),
                        cursor: inner.cursor,
                    },
                    Err(err) => inner,
                }
            } else {
                Attempt { result: Err(SqlErrView::Miss(n, id.spec_name())), cursor }
            },
            GrammarPatternView::And(ps) => {
                let all = Self::match_all(ps, ts, cursor, n);
                match all.result {
                    Ok((nodes, end)) => Attempt {
                        result: Ok((SqlGrammarView::Vec(n, end, spliced(nodes)), end)),
                        cursor: all.cursor,
                    },
                    Err(err) => Attempt { result: Err(err), cursor: all.cursor },
                }
            },
            GrammarPatternView::Any(p) => {
                let all = p.repeat(ts, cursor, n);
                Attempt {
                    result: Ok((SqlGrammarView::Vec(n, all.end, spliced(all.nodes)), all.end)),
                    cursor: all.cursor,
                }
            },
        }
    }

    /// The patterns of `ps` in order, each from where the one before it
    /// ended.
    pub open spec fn match_all(
        ps: Seq<GrammarPatternView>,
        ts: Seq<SqlLetterView>,
        cursor: int,
        n: int,
    ) -> Attempts
        decreases Self::max_level(ps), ps, 0int, 0int,
    {
        if ps.len() == 0 {
            Attempts { result: Ok((Seq::empty(), n)), cursor }
        } else {
            let first = ps[0].try_match(ts, cursor, n);
            match first.result {
                Ok((node, end)) => {
                    let rest = Self::match_all(ps.drop_first(), ts, first.cursor, end);
                    match rest.result {
                        Ok((nodes, last)) => Attempts {
                            result: Ok((seq![node] + nodes, last)),
                            cursor: rest.cursor,
                        },
                        Err(err) => rest,
                    }
                },
                Err(err) => Attempts { result: Err(err), cursor: first.cursor },
            }
        }
    }

    /// The pattern again and again, each time against a cursor of its
    /// own that starts where the last match left off. A match moves the
    /// cursor to where the cursor of the attempt stood; the attempt that
    /// fails ends the repetition and leaves nothing behind. So does a
    /// match that took no token, which would repeat without end.
    pub open spec fn repeat(self, ts: Seq<SqlLetterView>, cursor: int, n: int) -> Repeats
        decreases self.level(), self, 1int, ts.len() - cursor,
    {
        let attempt = self.try_match(ts, cursor, n);
        match attempt.result {
            Ok((node, end)) => if cursor < attempt.cursor <= ts.len() {
                let rest = self.repeat(ts, attempt.cursor, end);
                Repeats { nodes: seq![node] + rest.nodes, end: rest.end, cursor: rest.cursor }
            } else {
                Repeats { nodes: Seq::empty(), end: n, cursor }
            },
            Err(_) => Repeats { nodes: Seq::empty(), end: n, cursor },
        }
    }

    /// Whether the shape of the pattern lets it match without taking a
    /// token. No rule of the grammar does.
    pub open spec fn nullable(self) -> bool
        decreases self,
    {
        match self {
            GrammarPatternView::Letter(_) => false,
            GrammarPatternView::Grammar(_) => false,
            GrammarPatternView::And(ps) => forall|i: int|
                0 <= i < ps.len() ==> (#[trigger] ps[i]).nullable(),
            GrammarPatternView::Any(_) => true,
        }
    }

    /// Whether the pattern refers to rules only: every kind that it
    /// refers to has a definition.
    pub open spec fn well_formed(self) -> bool
        decreases self,
    {
        match self {
            GrammarPatternView::Letter(_) => true,
            GrammarPatternView::Grammar(id) => id.is_rule(),
            GrammarPatternView::And(ps) => forall|i: int|
                0 <= i < ps.len() ==> (#[trigger] ps[i]).well_formed(),
            GrammarPatternView::Any(p) => p.well_formed(),
        }
    }

    /// Whether every repetition in the pattern repeats something that
    /// takes a token each time it matches. No repetition in such a pattern
    /// is ever ended by a match that takes no token.
    pub open spec fn productive(self) -> bool
        decreases self,
    {
        match self {
            GrammarPatternView::Letter(_) => true,
            GrammarPatternView::Grammar(_) => true,
            GrammarPatternView::And(ps) => forall|i: int|
                0 <= i < ps.len() ==> (#[trigger] ps[i]).productive(),
            GrammarPatternView::Any(p) => p.productive() && !p.nullable(),
        }
    }
}

/// The definition of every rule refers to rules only, is productive, and
/// takes at least one token wherever it matches.
pub proof fn lemma_definition_well_formed(id: GrammarId)
    requires
        id.is_rule(),
    ensures
        id.definition().well_formed(),
        id.definition().productive(),
        !id.definition().nullable(),
{
    reveal_with_fuel(GrammarPatternView::well_formed, 4);
    reveal_with_fuel(GrammarPatternView::productive, 4);
    reveal_with_fuel(GrammarPatternView::nullable, 4);
    if id == GrammarId::ColumnClause {
        let ps = id.definition()->And_0;
        assert(!ps[0].nullable());
    } else if id == GrammarId::CreateTableStmt {
        let ps = id.definition()->And_0;
        let inner = ps[4]->Any_0->And_0;
        assert(!inner[0].nullable());
        assert(ps[4].well_formed());
        assert(ps[4].productive());
        assert(!ps[0].nullable());
    }
}

impl GrammarPatternView {
    /// An attempt never moves the cursor back, nor past the last token.
    pub proof fn lemma_cursor_bounds(self, ts: Seq<SqlLetterView>, cursor: int, n: int)
        requires
            0 <= cursor,
        ensures
            cursor <= self.try_match(ts, cursor, n).cursor,
            self.try_match(ts, cursor, n).cursor <= ts.len() || self.try_match(ts, cursor, n).cursor
                == cursor,
        decreases self.level(), self, 0int, 0int,
    {
        match self {
            GrammarPatternView::Letter(_) => {},
            GrammarPatternView::Grammar(id) => {
                if id.is_rule() {
                    lemma_definition_level(id);
                    id.definition().lemma_cursor_bounds(ts, cursor, n);
                }
            },
            GrammarPatternView::And(ps) => Self::lemma_cursor_bounds_all(ps, ts, cursor, n),
            GrammarPatternView::Any(p) => p.lemma_cursor_bounds_repeat(ts, cursor, n),
        }
    }

    /// A sequence never moves the cursor back, nor past the last token.
    pub proof fn lemma_cursor_bounds_all(
        ps: Seq<GrammarPatternView>,
        ts: Seq<SqlLetterView>,
        cursor: int,
        n: int,
    )
        requires
            0 <= cursor,
        ensures
            cursor <= Self::match_all(ps, ts, cursor, n).cursor,
            Self::match_all(ps, ts, cursor, n).cursor <= ts.len() || Self::match_all(
                ps,
                ts,
                cursor,
                n,
            ).cursor == cursor,
        decreases Self::max_level(ps), ps, 0int, 0int,
    {
        if ps.len() > 0 {
            ps[0].lemma_cursor_bounds(ts, cursor, n);
            let first = ps[0].try_match(ts, cursor, n);
            match first.result {
                Ok((node, end)) => Self::lemma_cursor_bounds_all(
                    ps.drop_first(),
                    ts,
                    first.cursor,
                    end,
                ),
                Err(_) => {},
            }
        }
    }

    /// A repetition never moves the cursor back, nor past the last token.
    pub proof fn lemma_cursor_bounds_repeat(self, ts: Seq<SqlLetterView>, cursor: int, n: int)
        requires
            0 <= cursor,
        ensures
            cursor <= self.repeat(ts, cursor, n).cursor,
            self.repeat(ts, cursor, n).cursor <= ts.len() || self.repeat(ts, cursor, n).cursor
                == cursor,
        decreases self.level(), self, 1int, ts.len() - cursor,
    {
        let attempt = self.try_match(ts, cursor, n);
        match attempt.result {
            Ok((node, end)) => if cursor < attempt.cursor <= ts.len() {
                self.lemma_cursor_bounds_repeat(ts, attempt.cursor, end);
            },
            Err(_) => {},
        }
    }

    /// A match of a pattern that is not nullable takes a token.
    pub proof fn lemma_match_moves(self, ts: Seq<SqlLetterView>, cursor: int, n: int)
        requires
            0 <= cursor,
            !self.nullable(),
        ensures
            self.try_match(ts, cursor, n).result is Ok ==> cursor < self.try_match(
                ts,
                cursor,
                n,
            ).cursor <= ts.len(),
        decreases self.level(), self, 0int, 0int,
    {
        self.lemma_cursor_bounds(ts, cursor, n);
        match self {
            GrammarPatternView::Letter(_) => {},
            GrammarPatternView::Grammar(id) => {
                if id.is_rule() {
                    lemma_definition_level(id);
                    lemma_definition_well_formed(id);
                    id.definition().lemma_match_moves(ts, cursor, n);
                }
            },
            GrammarPatternView::And(ps) => {
                let i = choose|i: int| 0 <= i < ps.len() && !(#[trigger] ps[i]).nullable();
                Self::lemma_match_all_moves(ps, ts, cursor, n, i);
            },
            GrammarPatternView::Any(_) => {},
        }
    }

    /// A sequence that matches takes a token if one of its patterns is
    /// not nullable.
    pub proof fn lemma_match_all_moves(
        ps: Seq<GrammarPatternView>,
        ts: Seq<SqlLetterView>,
        cursor: int,
        n: int,
        i: int,
    )
        requires
            0 <= cursor,
            0 <= i < ps.len(),
            !ps[i].nullable(),
        ensures
            Self::match_all(ps, ts, cursor, n).result is Ok ==> cursor < Self::match_all(
                ps,
                ts,
                cursor,
                n,
            ).cursor,
        decreases Self::max_level(ps), ps, 0int, 0int,
    {
        ps[0].lemma_cursor_bounds(ts, cursor, n);
        let first = ps[0].try_match(ts, cursor, n);
        match first.result {
            Ok((node, end)) => {
                Self::lemma_cursor_bounds_all(ps.drop_first(), ts, first.cursor, end);
                if i == 0 {
                    ps[0].lemma_match_moves(ts, cursor, n);
                } else {
                    assert(ps.drop_first()[i - 1] == ps[i]);
                    Self::lemma_match_all_moves(ps.drop_first(), ts, first.cursor, end, i - 1);
                }
            },
            Err(_) => {},
        }
    }

    /// A repetition never fails.
    pub proof fn lemma_repetition_never_fails(self, ts: Seq<SqlLetterView>, cursor: int, n: int)
        requires
            self is Any,
        ensures
            self.try_match(ts, cursor, n).result is Ok,
    {
    }

    /// A repetition goes on for as long as its pattern matches, and each
    /// match moves the cursor by exactly the tokens that the attempt took:
    /// the next attempt starts where the cursor of the last one stood. The
    /// attempt that fails leaves the cursor where it was. A match that
    /// takes no token ends the repetition too; a pattern that is not
    /// nullable has no such match.
    pub proof fn lemma_repeat_unfolds(self, ts: Seq<SqlLetterView>, cursor: int, n: int)
        requires
            0 <= cursor,
        ensures
            self.repeat(ts, cursor, n) == match self.try_match(ts, cursor, n).result {
                Ok((node, end)) => if self.try_match(ts, cursor, n).cursor > cursor {
                    let rest = self.repeat(ts, self.try_match(ts, cursor, n).cursor, end);
                    Repeats { nodes: seq![node] + rest.nodes, end: rest.end, cursor: rest.cursor }
                } else {
                    Repeats { nodes: Seq::empty(), end: n, cursor }
                },
                Err(_) => Repeats { nodes: Seq::empty(), end: n, cursor },
            },
            !self.nullable() && self.try_match(ts, cursor, n).result is Ok ==> self.try_match(
                ts,
                cursor,
                n,
            ).cursor > cursor,
    {
        self.lemma_cursor_bounds(ts, cursor, n);
        if !self.nullable() {
            self.lemma_match_moves(ts, cursor, n);
        }
    }
}

impl GrammarPatternView {
    /// Whether some attempt to match the pattern against `ts` gives
    /// `node`.
    pub open spec fn produces(self, ts: Seq<SqlLetterView>, node: SqlGrammarView) -> bool {
        exists|cursor: int, n: int|
            (#[trigger] self.try_match(ts, cursor, n)).result matches Ok((found, _)) && found
                == node
    }

    /// A sequence that matches gives one node for each of its patterns,
    /// and each pattern is what produced its node.
    pub proof fn lemma_match_all_nodes(
        ps: Seq<GrammarPatternView>,
        ts: Seq<SqlLetterView>,
        cursor: int,
        n: int,
    )
        ensures
            Self::match_all(ps, ts, cursor, n).result matches Ok((nodes, _)) ==> {
                &&& nodes.len() == ps.len()
                &&& forall|i: int| 0 <= i < ps.len() ==> (#[trigger] ps[i]).produces(ts, nodes[i])
            },
        decreases ps.len(),
    {
        if ps.len() > 0 {
            let first = ps[0].try_match(ts, cursor, n);
            match first.result {
                Ok((node, end)) => {
                    let rest = Self::match_all(ps.drop_first(), ts, first.cursor, end);
                    Self::lemma_match_all_nodes(ps.drop_first(), ts, first.cursor, end);
                    match rest.result {
                        Ok((more, _)) => {
                            let nodes = seq![node] + more;
                            assert forall|i: int| 0 <= i < ps.len() implies (#[trigger] ps[i]).produces(
                                ts,
                                nodes[i],
                            ) by {
                                if i > 0 {
                                    assert(ps.drop_first()[i - 1] == ps[i]);
                                    assert(more[i - 1] == nodes[i]);
                                }
                            }
                        },
                        Err(_) => {},
                    }
                },
                Err(_) => {},
            }
        }
    }
}

/// Whether the patterns of `ps` match one after the other, the pattern
/// at index `i` with the cursor at `cursors[i]` from the offset
/// `offsets[i]`, giving `nodes[i]` and leaving the cursor and the offset
/// at the values that stand next in `cursors` and `offsets`.
pub open spec fn runs(
    ps: Seq<GrammarPatternView>,
    ts: Seq<SqlLetterView>,
    cursors: Seq<int>,
    offsets: Seq<int>,
    nodes: Seq<SqlGrammarView>,
) -> bool {
    &&& cursors.len() == ps.len() + 1
    &&& offsets.len() == ps.len() + 1
    &&& nodes.len() == ps.len()
    &&& forall|i: int|
        0 <= i < ps.len() ==> (#[trigger] ps[i]).try_match(ts, cursors[i], offsets[i]) == (Attempt {
            result: Ok((nodes[i], offsets[i + 1])),
            cursor: cursors[i + 1],
        })
}

impl GrammarPatternView {
    /// Patterns that match one after the other match as a sequence, with
    /// their nodes for its nodes.
    pub proof fn lemma_match_all_runs(
        ps: Seq<GrammarPatternView>,
        ts: Seq<SqlLetterView>,
        cursors: Seq<int>,
        offsets: Seq<int>,
        nodes: Seq<SqlGrammarView>,
    )
        requires
            runs(ps, ts, cursors, offsets, nodes),
        ensures
            Self::match_all(ps, ts, cursors[0], offsets[0]) == (Attempts {
                result: Ok((nodes, offsets.last())),
                cursor: cursors.last(),
            }),
        decreases ps.len(),
    {
        if ps.len() == 0 {
            assert(nodes =~= Seq::<SqlGrammarView>::empty());
        } else {
            assert(ps[0].try_match(ts, cursors[0], offsets[0]).cursor == cursors[1]);
            let ps1 = ps.drop_first();
            let cursors1 = cursors.drop_first();
            let offsets1 = offsets.drop_first();
            let nodes1 = nodes.drop_first();
            assert forall|i: int| 0 <= i < ps1.len() implies (#[trigger] ps1[i]).try_match(
                ts,
                cursors1[i],
                offsets1[i],
            ) == (Attempt { result: Ok((nodes1[i], offsets1[i + 1])), cursor: cursors1[i + 1] }) by {
                assert(ps1[i] == ps[i + 1]);
                assert(ps[i + 1].try_match(ts, cursors[i + 1], offsets[i + 1]).cursor == cursors[i
                    + 2]);
            }
            Self::lemma_match_all_runs(ps1, ts, cursors1, offsets1, nodes1);
            assert(seq![nodes[0]] + nodes1 =~= nodes);
        }
    }
}

impl GrammarPatternView {
    /// Where the cursor stands before each pattern of `ps` as they match
    /// one after the other, and where it stands after the last.
    pub open spec fn cursors_of(
        ps: Seq<GrammarPatternView>,
        ts: Seq<SqlLetterView>,
        cursor: int,
        n: int,
    ) -> Seq<int>
        decreases ps.len(),
    {
        if ps.len() == 0 {
            seq![cursor]
        } else {
            let first = ps[0].try_match(ts, cursor, n);
            match first.result {
                Ok((_, end)) => seq![cursor] + Self::cursors_of(
                    ps.drop_first(),
                    ts,
                    first.cursor,
                    end,
                ),
                Err(_) => seq![cursor],
            }
        }
    }

    /// The offset from which each pattern of `ps` matches as they match
    /// one after the other, and the offset at which the last ends.
    pub open spec fn offsets_of(
        ps: Seq<GrammarPatternView>,
        ts: Seq<SqlLetterView>,
        cursor: int,
        n: int,
    ) -> Seq<int>
        decreases ps.len(),
    {
        if ps.len() == 0 {
            seq![n]
        } else {
            let first = ps[0].try_match(ts, cursor, n);
            match first.result {
                Ok((_, end)) => seq![n] + Self::offsets_of(ps.drop_first(), ts, first.cursor, end),
                Err(_) => seq![n],
            }
        }
    }

    /// Where a sequence matches, its patterns match one after the other.
    pub proof fn lemma_match_all_inverts(
        ps: Seq<GrammarPatternView>,
        ts: Seq<SqlLetterView>,
        cursor: int,
        n: int,
    )
        ensures
            Self::cursors_of(ps, ts, cursor, n)[0] == cursor,
            Self::offsets_of(ps, ts, cursor, n)[0] == n,
            Self::match_all(ps, ts, cursor, n).result matches Ok((nodes, end)) ==> {
                &&& runs(
                    ps,
                    ts,
                    Self::cursors_of(ps, ts, cursor, n),
                    Self::offsets_of(ps, ts, cursor, n),
                    nodes,
                )
                &&& Self::cursors_of(ps, ts, cursor, n).last() == Self::match_all(
                    ps,
                    ts,
                    cursor,
                    n,
                ).cursor
                &&& Self::offsets_of(ps, ts, cursor, n).last() == end
            },
        decreases ps.len(),
    {
        if ps.len() > 0 {
            let first = ps[0].try_match(ts, cursor, n);
            match first.result {
                Ok((node, end)) => {
                    let ps1 = ps.drop_first();
                    Self::lemma_match_all_inverts(ps1, ts, first.cursor, end);
                    match Self::match_all(ps1, ts, first.cursor, end).result {
                        Ok((rest, last)) => {
                            let cursors = Self::cursors_of(ps, ts, cursor, n);
                            let offsets = Self::offsets_of(ps, ts, cursor, n);
                            let cursors1 = Self::cursors_of(ps1, ts, first.cursor, end);
                            let offsets1 = Self::offsets_of(ps1, ts, first.cursor, end);
                            let nodes = seq![node] + rest;
                            assert forall|i: int| 0 <= i < ps.len() implies (
                            #[trigger] ps[i]).try_match(ts, cursors[i], offsets[i]) == (Attempt {
                                result: Ok((nodes[i], offsets[i + 1])),
                                cursor: cursors[i + 1],
                            }) by {
                                if i == 0 {
                                    assert(cursors[1] == cursors1[0]);
                                    assert(offsets[1] == offsets1[0]);
                                } else {
                                    assert(ps1[i - 1] == ps[i]);
                                    assert(ps1[i - 1].try_match(
                                        ts,
                                        cursors1[i - 1],
                                        offsets1[i - 1],
                                    ).cursor == cursors1[i]);
                                    assert(cursors[i] == cursors1[i - 1]);
                                    assert(cursors[i + 1] == cursors1[i]);
                                    assert(offsets[i] == offsets1[i - 1]);
                                    assert(offsets[i + 1] == offsets1[i]);
                                    assert(nodes[i] == rest[i - 1]);
                                }
                            }
                            assert(cursors.last() == cursors1.last());
                            assert(offsets.last() == offsets1.last());
                        },
                        Err(_) => {},
                    }
                },
                Err(_) => {},
            }
        }
    }
}

/// What the identifier rule produces is an identifier node.
pub proof fn lemma_ident_rule_node(ts: Seq<SqlLetterView>, node: SqlGrammarView)
    requires
        GrammarPatternView::Grammar(GrammarId::IdExpr).produces(ts, node),
    ensures
        node is IdExpr,
{
    reveal_with_fuel(GrammarPatternView::try_match, 2);
}

/// What matching the definition of a rule gives holds all that the rule
/// needs to make its node.
pub proof fn lemma_definition_reducible(
    id: GrammarId,
    ts: Seq<SqlLetterView>,
    cursor: int,
    n: int,
)
    requires
        id.is_rule(),
    ensures
        id.definition().try_match(ts, cursor, n).result matches Ok((node, _)) ==> reducible(
            id,
            node,
        ),
{
    let ident = GrammarPatternView::Grammar(GrammarId::IdExpr);
    match id.definition().try_match(ts, cursor, n).result {
        Ok((node, _)) => {
            if id == GrammarId::ColumnClause {
                let ps = id.definition()->And_0;
                GrammarPatternView::lemma_match_all_nodes(ps, ts, cursor, n);
                let nodes = GrammarPatternView::match_all(ps, ts, cursor, n).result->Ok_0.0;
                assert forall|i: int| 0 <= i < nodes.len() implies (#[trigger] nodes[i]) is IdExpr by {
                    assert(ps[i] == ident);
                    assert(ps[i].produces(ts, nodes[i]));
                    lemma_ident_rule_node(ts, nodes[i]);
                }
                lemma_spliced_plain(nodes);
                lemma_idents_of_idents(nodes);
            } else if id == GrammarId::CreateTableStmt {
                let ps = id.definition()->And_0;
                GrammarPatternView::lemma_match_all_nodes(ps, ts, cursor, n);
                let nodes = GrammarPatternView::match_all(ps, ts, cursor, n).result->Ok_0.0;
                assert(ps[2] == ident);
                assert(ps[2].produces(ts, nodes[2]));
                lemma_ident_rule_node(ts, nodes[2]);
                lemma_spliced_keeps_ident(nodes, 2);
            }
        },
        Err(_) => {},
    }
}

impl GrammarPatternView {
    /// No sequence stands directly inside a sequence that matching gives:
    /// sequences are never nested.
    pub proof fn lemma_match_flat(self, ts: Seq<SqlLetterView>, cursor: int, n: int)
        ensures
            self.try_match(ts, cursor, n).result matches Ok((node, _)) ==> node.flat(),
        decreases self.level(), self, 0int, 0int,
    {
        match self {
            GrammarPatternView::Letter(_) => {},
            GrammarPatternView::Grammar(id) => {
                if id.is_rule() {
                    lemma_definition_reducible(id, ts, cursor, n);
                }
            },
            GrammarPatternView::And(ps) => {
                Self::lemma_match_all_flat(ps, ts, cursor, n);
                match Self::match_all(ps, ts, cursor, n).result {
                    Ok((nodes, _)) => lemma_spliced_flat(nodes),
                    Err(_) => {},
                }
            },
            GrammarPatternView::Any(p) => {
                p.lemma_repeat_flat(ts, cursor, n);
                lemma_spliced_flat(p.repeat(ts, cursor, n).nodes);
            },
        }
    }

    /// The nodes that the patterns of a sequence give are flat.
    pub proof fn lemma_match_all_flat(
        ps: Seq<GrammarPatternView>,
        ts: Seq<SqlLetterView>,
        cursor: int,
        n: int,
    )
        ensures
            Self::match_all(ps, ts, cursor, n).result matches Ok((nodes, _)) ==> forall|i: int|
                0 <= i < nodes.len() ==> (#[trigger] nodes[i]).flat(),
        decreases Self::max_level(ps), ps, 0int, 0int,
    {
        if ps.len() > 0 {
            ps[0].lemma_match_flat(ts, cursor, n);
            let first = ps[0].try_match(ts, cursor, n);
            match first.result {
                Ok((node, end)) => {
                    Self::lemma_match_all_flat(ps.drop_first(), ts, first.cursor, end);
                    match Self::match_all(ps.drop_first(), ts, first.cursor, end).result {
                        Ok((rest, _)) => {
                            let nodes = seq![node] + rest;
                            assert forall|i: int| 0 <= i < nodes.len() implies (
                            #[trigger] nodes[i]).flat() by {
                                if i > 0 {
                                    assert(nodes[i] == rest[i - 1]);
                                }
                            }
                        },
                        Err(_) => {},
                    }
                },
                Err(_) => {},
            }
        }
    }

    /// The nodes that a repetition gives are flat.
    pub proof fn lemma_repeat_flat(self, ts: Seq<SqlLetterView>, cursor: int, n: int)
        ensures
            forall|i: int|
                0 <= i < self.repeat(ts, cursor, n).nodes.len() ==> (#[trigger] self.repeat(
                    ts,
                    cursor,
                    n,
                ).nodes[i]).flat(),
        decreases self.level(), self, 1int, ts.len() - cursor,
    {
        self.lemma_match_flat(ts, cursor, n);
        let attempt = self.try_match(ts, cursor, n);
        match attempt.result {
            Ok((node, end)) => if cursor < attempt.cursor <= ts.len() {
                self.lemma_repeat_flat(ts, attempt.cursor, end);
                let rest = self.repeat(ts, attempt.cursor, end).nodes;
                let nodes = seq![node] + rest;
                assert forall|i: int| 0 <= i < nodes.len() implies (#[trigger] nodes[i]).flat() by {
                    if i > 0 {
                        assert(nodes[i] == rest[i - 1]);
                    }
                }
            },
            Err(_) => {},
        }
    }
}

/// The offset at which matching stands after the tokens `ts` from index
/// `from` up to index `to` were taken, having started at offset `n`: the
/// end of the last token taken, or `n` where none was.
pub open spec fn end_after(ts: Seq<SqlLetterView>, from: int, to: int, n: int) -> int {
    if to > from {
        ts[to - 1].end
    } else {
        n
    }
}

impl GrammarPatternView {
    /// A match ends where the last token that it took ends, or where it
    /// began if it took none, and the node that it gives ends there too.
    pub proof fn lemma_match_end(self, ts: Seq<SqlLetterView>, cursor: int, n: int)
        requires
            0 <= cursor,
        ensures
            self.try_match(ts, cursor, n).result matches Ok((node, end)) ==> {
                &&& node.end() == end
                &&& end == end_after(ts, cursor, self.try_match(ts, cursor, n).cursor, n)
            },
        decreases self.level(), self, 0int, 0int,
    {
        self.lemma_cursor_bounds(ts, cursor, n);
        match self {
            GrammarPatternView::Letter(_) => {},
            GrammarPatternView::Grammar(id) => {
                if id.is_rule() {
                    lemma_definition_level(id);
                    lemma_definition_reducible(id, ts, cursor, n);
                    id.definition().lemma_match_end(ts, cursor, n);
                    if id == GrammarId::IdExpr {
                        reveal_with_fuel(GrammarPatternView::try_match, 2);
                    }
                }
            },
            GrammarPatternView::And(ps) => Self::lemma_match_all_end(ps, ts, cursor, n),
            GrammarPatternView::Any(p) => p.lemma_repeat_end(ts, cursor, n),
        }
    }

    /// A sequence ends where the last token that it took ends, or where
    /// it began if it took none.
    pub proof fn lemma_match_all_end(
        ps: Seq<GrammarPatternView>,
        ts: Seq<SqlLetterView>,
        cursor: int,
        n: int,
    )
        requires
            0 <= cursor,
        ensures
            Self::match_all(ps, ts, cursor, n).result matches Ok((_, end)) ==> end == end_after(
                ts,
                cursor,
                Self::match_all(ps, ts, cursor, n).cursor,
                n,
            ),
        decreases Self::max_level(ps), ps, 0int, 0int,
    {
        if ps.len() > 0 {
            ps[0].lemma_match_end(ts, cursor, n);
            ps[0].lemma_cursor_bounds(ts, cursor, n);
            let first = ps[0].try_match(ts, cursor, n);
            match first.result {
                Ok((node, end)) => {
                    Self::lemma_match_all_end(ps.drop_first(), ts, first.cursor, end);
                    Self::lemma_cursor_bounds_all(ps.drop_first(), ts, first.cursor, end);
                },
                Err(_) => {},
            }
        }
    }

    /// A repetition ends where the last token that it took ends, or where
    /// it began if it took none.
    pub proof fn lemma_repeat_end(self, ts: Seq<SqlLetterView>, cursor: int, n: int)
        requires
            0 <= cursor,
        ensures
            self.repeat(ts, cursor, n).end == end_after(
                ts,
                cursor,
                self.repeat(ts, cursor, n).cursor,
                n,
            ),
        decreases self.level(), self, 1int, ts.len() - cursor,
    {
        self.lemma_match_end(ts, cursor, n);
        let attempt = self.try_match(ts, cursor, n);
        match attempt.result {
            Ok((node, end)) => if cursor < attempt.cursor <= ts.len() {
                self.lemma_repeat_end(ts, attempt.cursor, end);
                self.lemma_cursor_bounds_repeat(ts, attempt.cursor, end);
            },
            Err(_) => {},
        }
    }
}

/// Whether no token of `ts` ends before it begins, and each ends before
/// those after it begin, as the tokens of a text do.
pub open spec fn spaced(ts: Seq<SqlLetterView>) -> bool {
    &&& forall|i: int| 0 <= i < ts.len() ==> (#[trigger] ts[i]).start <= ts[i].end
    &&& forall|i: int, j: int|
        0 <= i < j < ts.len() ==> (#[trigger] ts[i]).end <= (#[trigger] ts[j]).start
}

/// Whether the tokens of `ts` from index `cursor` on begin at or after
/// the offset `n`.
pub open spec fn ahead(ts: Seq<SqlLetterView>, cursor: int, n: int) -> bool {
    forall|i: int| cursor <= i < ts.len() ==> n <= (#[trigger] ts[i]).start
}

impl GrammarPatternView {
    /// Matched against tokens that lie in order, from an offset that lies
    /// before those still to come, a pattern gives a node that begins
    /// at or after that offset, does not end before it begins, and holds
    /// its nodes in order inside it. The tokens still to come lie after
    /// its end.
    pub proof fn lemma_match_spans(self, ts: Seq<SqlLetterView>, cursor: int, n: int)
        requires
            spaced(ts),
            0 <= cursor,
            ahead(ts, cursor, n),
        ensures
            self.try_match(ts, cursor, n).result matches Ok((node, end)) ==> {
                &&& node.well_spanned()
                &&& n <= node.start()
                &&& node.end() == end
                &&& ahead(ts, self.try_match(ts, cursor, n).cursor, end)
            },
        decreases self.level(), self, 0int, 0int,
    {
        self.lemma_cursor_bounds(ts, cursor, n);
        match self {
            GrammarPatternView::Letter(_) => {
                if 0 <= cursor < ts.len() {
                    assert(n <= ts[cursor].start);
                }
            },
            GrammarPatternView::Grammar(id) => {
                if id.is_rule() {
                    lemma_definition_level(id);
                    lemma_definition_reducible(id, ts, cursor, n);
                    id.definition().lemma_match_spans(ts, cursor, n);
                    if id == GrammarId::IdExpr {
                        reveal_with_fuel(GrammarPatternView::try_match, 2);
                        if 0 <= cursor < ts.len() {
                            assert(n <= ts[cursor].start);
                        }
                    }
                }
            },
            GrammarPatternView::And(ps) => {
                Self::lemma_match_all_spans(ps, ts, cursor, n);
                match Self::match_all(ps, ts, cursor, n).result {
                    Ok((nodes, end)) => lemma_spliced_in_order(nodes, n, end),
                    Err(_) => {},
                }
            },
            GrammarPatternView::Any(p) => {
                p.lemma_repeat_spans(ts, cursor, n);
                let all = p.repeat(ts, cursor, n);
                lemma_spliced_in_order(all.nodes, n, all.end);
            },
        }
    }

    /// The nodes that the patterns of a sequence give lie in order.
    pub proof fn lemma_match_all_spans(
        ps: Seq<GrammarPatternView>,
        ts: Seq<SqlLetterView>,
        cursor: int,
        n: int,
    )
        requires
            spaced(ts),
            0 <= cursor,
            ahead(ts, cursor, n),
        ensures
            Self::match_all(ps, ts, cursor, n).result matches Ok((nodes, end)) ==> {
                &&& n <= end
                &&& in_order(nodes, n, end)
                &&& forall|i: int| 0 <= i < nodes.len() ==> (#[trigger] nodes[i]).well_spanned()
                &&& ahead(ts, Self::match_all(ps, ts, cursor, n).cursor, end)
            },
        decreases Self::max_level(ps), ps, 0int, 0int,
    {
        if ps.len() > 0 {
            ps[0].lemma_match_spans(ts, cursor, n);
            ps[0].lemma_cursor_bounds(ts, cursor, n);
            let first = ps[0].try_match(ts, cursor, n);
            match first.result {
                Ok((node, end)) => {
                    Self::lemma_match_all_spans(ps.drop_first(), ts, first.cursor, end);
                    match Self::match_all(ps.drop_first(), ts, first.cursor, end).result {
                        Ok((rest, last)) => {
                            let nodes = seq![node] + rest;
                            assert forall|i: int| 0 <= i < nodes.len() implies (
                            #[trigger] nodes[i]).well_spanned() && n <= nodes[i].start()
                                <= nodes[i].end() <= last by {
                                if i > 0 {
                                    assert(nodes[i] == rest[i - 1]);
                                }
                            }
                            assert forall|i: int, j: int|
                                0 <= i < j < nodes.len() implies (#[trigger] nodes[i]).end() <= (
                            #[trigger] nodes[j]).start() by {
                                assert(nodes[j] == rest[j - 1]);
                                if i > 0 {
                                    assert(nodes[i] == rest[i - 1]);
                                }
                            }
                        },
                        Err(_) => {},
                    }
                },
                Err(_) => {},
            }
        }
    }

    /// The nodes that a repetition gives lie in order.
    pub proof fn lemma_repeat_spans(self, ts: Seq<SqlLetterView>, cursor: int, n: int)
        requires
            spaced(ts),
            0 <= cursor,
            ahead(ts, cursor, n),
        ensures
            n <= self.repeat(ts, cursor, n).end,
            in_order(self.repeat(ts, cursor, n).nodes, n, self.repeat(ts, cursor, n).end),
            forall|i: int|
                0 <= i < self.repeat(ts, cursor, n).nodes.len() ==> (#[trigger] self.repeat(
                    ts,
                    cursor,
                    n,
                ).nodes[i]).well_spanned(),
            ahead(ts, self.repeat(ts, cursor, n).cursor, self.repeat(ts, cursor, n).end),
        decreases self.level(), self, 1int, ts.len() - cursor,
    {
        self.lemma_match_spans(ts, cursor, n);
        let attempt = self.try_match(ts, cursor, n);
        match attempt.result {
            Ok((node, end)) => if cursor < attempt.cursor <= ts.len() {
                self.lemma_repeat_spans(ts, attempt.cursor, end);
                let rest = self.repeat(ts, attempt.cursor, end);
                let nodes = seq![node] + rest.nodes;
                assert forall|i: int| 0 <= i < nodes.len() implies (#[trigger] nodes[i]).well_spanned()
                    && n <= nodes[i].start() <= nodes[i].end() <= rest.end by {
                    if i > 0 {
                        assert(nodes[i] == rest.nodes[i - 1]);
                    }
                }
                assert forall|i: int, j: int| 0 <= i < j < nodes.len() implies (
                #[trigger] nodes[i]).end() <= (#[trigger] nodes[j]).start() by {
                    assert(nodes[j] == rest.nodes[j - 1]);
                    if i > 0 {
                        assert(nodes[i] == rest.nodes[i - 1]);
                    }
                }
            },
            Err(_) => {},
        }
    }
}

impl GrammarPattern {
    /// The pattern as a mathematical value.
    pub open spec fn model(&self) -> GrammarPatternView
        decreases self,
    {
        match self {
            GrammarPattern::Letter(id) => GrammarPatternView::Letter(*id),
            GrammarPattern::Grammar(id) => GrammarPatternView::Grammar(*id),
            GrammarPattern::And(ps) => GrammarPatternView::And(
                Seq::new(
                    ps.len() as nat,
                    |i: int|
                        if 0 <= i < ps.len() {
                            ps[i].model()
                        } else {
                            arbitrary()
                        },
                ),
            ),
            GrammarPattern::Any(p) => GrammarPatternView::Any(Box::new(p.model())),
        }
    }
}

impl View for GrammarPattern {
    type V = GrammarPatternView;

    open spec fn view(&self) -> GrammarPatternView {
        self.model()
    }
}

impl GrammarPattern {
    /// Whether the shape of the pattern lets it match without taking a
    /// token.
    pub fn nullable(&self) -> (r: bool)
        ensures
            r == self@.nullable(),
        decreases self,
    {
        match self {
            GrammarPattern::Letter(_) => false,
            GrammarPattern::Grammar(_) => false,
            GrammarPattern::And(ps) => {
                let mut k: usize = 0;
                while k < ps.len()
                    invariant
                        k <= ps.len(),
                        self == GrammarPattern::And(*ps),
                        forall|i: int| 0 <= i < k ==> (#[trigger] self@->And_0[i]).nullable(),
                    decreases ps.len() - k,
                {
                    if !ps[k].nullable() {
                        assert(!self@->And_0[k as int].nullable());
                        return false;
                    }
                    k += 1;
                }
                true
            },
            GrammarPattern::Any(_) => true,
        }
    }

    /// Whether the pattern refers to rules only: what `try_match` asks of
    /// a pattern.
    pub fn well_formed(&self) -> (r: bool)
        ensures
            r == self@.well_formed(),
        decreases self,
    {
        match self {
            GrammarPattern::Letter(_) => true,
            GrammarPattern::Grammar(id) => match id {
                GrammarId::CreateTableStmt => true,
                GrammarId::ColumnClause => true,
                GrammarId::IdExpr => true,
                _ => false,
            },
            GrammarPattern::And(ps) => {
                let mut k: usize = 0;
                while k < ps.len()
                    invariant
                        k <= ps.len(),
                        self == GrammarPattern::And(*ps),
                        forall|i: int| 0 <= i < k ==> (#[trigger] self@->And_0[i]).well_formed(),
                    decreases ps.len() - k,
                {
                    if !ps[k].well_formed() {
                        assert(!self@->And_0[k as int].well_formed());
                        return false;
                    }
                    k += 1;
                }
                true
            },
            GrammarPattern::Any(p) => p.well_formed(),
        }
    }

    /// Whether every repetition in the pattern repeats something that
    /// takes a token each time it matches.
    pub fn productive(&self) -> (r: bool)
        ensures
            r == self@.productive(),
        decreases self,
    {
        match self {
            GrammarPattern::Letter(_) => true,
            GrammarPattern::Grammar(_) => true,
            GrammarPattern::And(ps) => {
                let mut k: usize = 0;
                while k < ps.len()
                    invariant
                        k <= ps.len(),
                        self == GrammarPattern::And(*ps),
                        forall|i: int| 0 <= i < k ==> (#[trigger] self@->And_0[i]).productive(),
                    decreases ps.len() - k,
                {
                    if !ps[k].productive() {
                        assert(!self@->And_0[k as int].productive());
                        return false;
                    }
                    k += 1;
                }
                true
            },
            GrammarPattern::Any(p) => p.productive() && !p.nullable(),
        }
    }

    /// Copies of the patterns of `ps`, in order.
    fn clone_all(ps: &Vec<Box<GrammarPattern>>) -> (r: Vec<Box<GrammarPattern>>)
        ensures
            r.len() == ps.len(),
            forall|i: int| 0 <= i < ps.len() ==> (#[trigger] r[i]).model() == ps[i].model(),
        decreases ps,
    {
        let mut r: Vec<Box<GrammarPattern>> = Vec::new();
        let mut k: usize = 0;
        while k < ps.len()
            invariant
                k <= ps.len(),
                r.len() == k,
                forall|i: int| 0 <= i < k ==> (#[trigger] r[i]).model() == ps[i].model(),
            decreases ps.len() - k,
        {
            let copy = (*ps[k]).clone();
            r.push(Box::new(copy));
            k += 1;
        }
        r
    }
}

impl Clone for GrammarPattern {
    fn clone(&self) -> (r: Self)
        ensures
            r@ == self@,
        decreases self,
    {
        match self {
            GrammarPattern::Letter(id) => GrammarPattern::Letter(*id),
            GrammarPattern::Grammar(id) => GrammarPattern::Grammar(*id),
            GrammarPattern::And(ps) => {
                let r = GrammarPattern::And(GrammarPattern::clone_all(ps));
                assert(r@->And_0 =~= self@->And_0);
                r
            },
            GrammarPattern::Any(p) => GrammarPattern::Any(Box::new((**p).clone())),
        }
    }
}

/// What an attempt hands back, as plain values.
pub open spec fn outcome(r: Result<(SqlGrammar, usize), SqlErr>) -> Result<
    (SqlGrammarView, int),
    SqlErrView,
> {
    match r {
        Ok((node, end)) => Ok((node@, end as int)),
        Err(err) => Err(err@),
    }
}

/// The nodes found so far, then what the rest of a sequence gives.
pub open spec fn then_all(found: Seq<SqlGrammarView>, rest: Attempts) -> Attempts {
    match rest.result {
        Ok((nodes, end)) => Attempts { result: Ok((found + nodes, end)), cursor: rest.cursor },
        Err(_) => rest,
    }
}

/// The nodes found so far, then what the rest of a repetition gives.
pub open spec fn then_repeats(found: Seq<SqlGrammarView>, rest: Repeats) -> Repeats {
    Repeats { nodes: found + rest.nodes, end: rest.end, cursor: rest.cursor }
}

impl GrammarPattern {
    /// What the rule `value` is defined as.
    pub fn from(value: GrammarId) -> (r: Self)
        requires
            value.is_rule(),
        ensures
            r@ == value.definition(),
    {
        proof {
            reveal_with_fuel(GrammarPattern::model, 4);
        }
        match value {
            GrammarId::CreateTableStmt => {
                let column = GrammarPattern::And(
                    vec![
                        Box::new(GrammarPattern::Grammar(GrammarId::ColumnClause)),
                        Box::new(GrammarPattern::Letter(LetterId::Comma)),
                    ],
                );
                assert(column@->And_0 =~= value.definition()->And_0[4]->Any_0->And_0);
                let r = GrammarPattern::And(
                    vec![
                        Box::new(GrammarPattern::Letter(LetterId::Create)),
                        Box::new(GrammarPattern::Letter(LetterId::Table)),
                        Box::new(GrammarPattern::Grammar(GrammarId::IdExpr)),
                        Box::new(GrammarPattern::Letter(LetterId::ParenL)),
                        Box::new(GrammarPattern::Any(Box::new(column))),
                        Box::new(GrammarPattern::Grammar(GrammarId::ColumnClause)),
                        Box::new(GrammarPattern::Letter(LetterId::ParenR)),
                    ],
                );
                assert(r@->And_0 =~= value.definition()->And_0);
                r
            },
            GrammarId::ColumnClause => {
                let r = GrammarPattern::And(
                    vec![
                        Box::new(GrammarPattern::Grammar(GrammarId::IdExpr)),
                        Box::new(GrammarPattern::Grammar(GrammarId::IdExpr)),
                    ],
                );
                assert(r@->And_0 =~= value.definition()->And_0);
                r
            },
            GrammarId::IdExpr => GrammarPattern::Letter(LetterId::Id),
            GrammarId::Letter | GrammarId::Vec => unreached(),
        }
    }

    /// Tries to match the pattern against the tokens of `letters`, the
    /// first of them the one at index `cursor`, from the character
    /// offset `n`. Moves `cursor` past the tokens that it took. Returns the
    /// node and the offset at which it ends, or the error. A repetition
    /// ends where its pattern no longer matches, or matches without taking
    /// a token.
    pub fn try_match(&self, letters: &Vec<SqlLetter>, cursor: &mut usize, n: usize) -> (r: Result<
        (SqlGrammar, usize),
        SqlErr,
    >)
        requires
            self@.well_formed(),
        ensures
            outcome(r) == self@.try_match(
                letters.deep_view(),
                *old(cursor) as int,
                n as int,
            ).result,
            *final(cursor) == self@.try_match(
                letters.deep_view(),
                *old(cursor) as int,
                n as int,
            ).cursor,
            self@ is Any ==> r is Ok,
            r matches Ok((node, end)) ==> node@.flat() && node@.end() == end && end == end_after(
                letters.deep_view(),
                *old(cursor) as int,
                *final(cursor) as int,
                n as int,
            ),
            *old(cursor) <= *final(cursor),
            *final(cursor) <= letters.len() || *final(cursor) == *old(cursor),
            spaced(letters.deep_view()) && ahead(letters.deep_view(), *old(cursor) as int, n as int)
                ==> (r matches Ok((node, end)) ==> node@.well_spanned() && n <= node@.start()
                && ahead(letters.deep_view(), *final(cursor) as int, end as int)),
        decreases self@.level(), self@, 0int, 0int,
    {
        let ghost ts = letters.deep_view();
        let ghost start = *cursor as int;
        proof {
            self@.lemma_match_flat(ts, start, n as int);
            self@.lemma_match_end(ts, start, n as int);
            self@.lemma_cursor_bounds(ts, start, n as int);
            if spaced(ts) && ahead(ts, start, n as int) {
                self@.lemma_match_spans(ts, start, n as int);
            }
        }
        match self {
            GrammarPattern::Letter(id) => {
                if *cursor < letters.len() {
                    let letter = &letters[*cursor];
                    *cursor = *cursor + 1;
                    if letter.is(id) {
                        Ok(
                            (
                                SqlGrammar::Letter(letter.start(), letter.end(), letter.clone()),
                                letter.end(),
                            ),
                        )
                    } else {
                        Err(SqlErr::Miss(n, id.name().to_string()))
                    }
                } else {
                    Err(SqlErr::Miss(n, id.name().to_string()))
                }
            },
            GrammarPattern::Grammar(id) => {
                proof {
                    lemma_definition_level(*id);
                    lemma_definition_well_formed(*id);
                    lemma_definition_reducible(*id, ts, start, n as int);
                }
                let definition = GrammarPattern::from(*id);
                match definition.try_match(letters, cursor, n) {
                    Ok((grammar, end)) => Ok((SqlGrammar::reduce(*id, grammar), end)),
                    Err(err) => Err(err),
                }
            },
            GrammarPattern::And(ps) => {
                let ghost all = self@->And_0;
                let mut grammars: Vec<SqlGrammar> = Vec::new();
                let mut i: usize = n;
                let mut k: usize = 0;
                proof {
                    assert(all.skip(0) =~= all);
                    assert(grammars.deep_view() =~= Seq::<SqlGrammarView>::empty());
                    let whole = GrammarPatternView::match_all(all, ts, start, n as int);
                    assert(then_all(Seq::empty(), whole) == whole) by {
                        if let Ok((nodes, _)) = whole.result {
                            assert(Seq::<SqlGrammarView>::empty() + nodes =~= nodes);
                        }
                    }
                }
                while k < ps.len()
                    invariant
                        k <= ps.len(),
                        self == GrammarPattern::And(*ps),
                        self@.well_formed(),
                        all == self@->And_0,
                        ts == letters.deep_view(),
                        start == *old(cursor),
                        GrammarPatternView::match_all(all, ts, start, n as int) == then_all(
                            grammars.deep_view(),
                            GrammarPatternView::match_all(
                                all.skip(k as int),
                                ts,
                                *cursor as int,
                                i as int,
                            ),
                        ),
                    decreases ps.len() - k,
                {
                    let ghost found = grammars.deep_view();
                    let ghost here = *cursor as int;
                    proof {
                        assert(all.skip(k as int).drop_first() =~= all.skip(k + 1));
                        assert(all[k as int].well_formed());
                        GrammarPatternView::lemma_max_level(all, 0);
                    }
                    match ps[k].try_match(letters, cursor, i) {
                        Ok((grammar, end)) => {
                            proof {
                                let rest = GrammarPatternView::match_all(
                                    all.skip(k + 1),
                                    ts,
                                    *cursor as int,
                                    end as int,
                                );
                                if let Ok((nodes, _)) = rest.result {
                                    assert(found + (seq![grammar@] + nodes) =~= found.push(
                                        grammar@,
                                    ) + nodes);
                                }
                            }
                            grammars.push(grammar);
                            assert(grammars.deep_view() =~= found.push(grammar@));
                            i = end;
                        },
                        Err(err) => {
                            proof {
                                self@.lemma_cursor_bounds(ts, start, n as int);
                            }
                            return Err(err);
                        },
                    }
                    k += 1;
                }
                proof {
                    assert(grammars.deep_view() + Seq::<SqlGrammarView>::empty()
                        =~= grammars.deep_view());
                    lemma_sequence_view(n, i, grammars);
                }
                Ok((SqlGrammar::reduce(GrammarId::Vec, SqlGrammar::Vec(n, i, grammars)), i))
            },
            GrammarPattern::Any(p) => {
                let mut grammars: Vec<SqlGrammar> = Vec::new();
                let mut i: usize = n;
                proof {
                    assert(grammars.deep_view() =~= Seq::<SqlGrammarView>::empty());
                    let whole = p@.repeat(ts, start, n as int);
                    assert(Seq::<SqlGrammarView>::empty() + whole.nodes =~= whole.nodes);
                }
                loop
                    invariant
                        self == GrammarPattern::Any(*p),
                        self@.well_formed(),
                        ts == letters.deep_view(),
                        start == *old(cursor),
                        p@.repeat(ts, start, n as int) == then_repeats(
                            grammars.deep_view(),
                            p@.repeat(ts, *cursor as int, i as int),
                        ),
                    decreases ts.len() - *cursor,
                {
                    let ghost found = grammars.deep_view();
                    let mut probe: usize = *cursor;
                    let taken = match p.try_match(letters, &mut probe, i) {
                        Ok((grammar, end)) => if probe > *cursor {
                            Some((grammar, end))
                        } else {
                            None
                        },
                        Err(_) => None,
                    };
                    match taken {
                        Some((grammar, end)) => {
                            proof {
                                let rest = p@.repeat(ts, probe as int, end as int);
                                assert(found + (seq![grammar@] + rest.nodes) =~= found.push(
                                    grammar@,
                                ) + rest.nodes);
                            }
                            *cursor = probe;
                            grammars.push(grammar);
                            assert(grammars.deep_view() =~= found.push(grammar@));
                            i = end;
                        },
                        None => {
                            proof {
                                assert(found + Seq::<SqlGrammarView>::empty() =~= found);
                                lemma_sequence_view(n, i, grammars);
                                self@.lemma_match_flat(ts, start, n as int);
                                self@.lemma_match_end(ts, start, n as int);
                                self@.lemma_cursor_bounds(ts, start, n as int);
                                if spaced(ts) && ahead(ts, start, n as int) {
                                    self@.lemma_match_spans(ts, start, n as int);
                                }
                            }
                            return Ok(
                                (
                                    SqlGrammar::reduce(
                                        GrammarId::Vec,
                                        SqlGrammar::Vec(n, i, grammars),
                                    ),
                                    i,
                                ),
                            );
                        },
                    }
                }
            },
        }
    }
}

} // verus!
