//! What the grammar accepts, said without the engine: the tokens that
//! spell a statement, and the statement that they spell.

use crate::clause::ColumnClauseView;
use crate::err::SqlErrView;
use crate::grammar::{
    columns, idents, lemma_columns_add, lemma_columns_push, lemma_idents_add, lemma_idents_push,
    lemma_spliced_add, lemma_spliced_empty, lemma_spliced_plain, lemma_spliced_push, reduced,
    spliced, SqlGrammarView,
};
use crate::grammar_id::GrammarId;
use crate::grammar_pattern::{runs, spaced, Attempt, GrammarPatternView, Repeats};
use crate::letter::SqlLetterView;
use crate::letter_id::LetterId;
use crate::parse::{lemma_tokens_tile, parsed, significant, tiles, tokens};
use crate::stmt::CreateTableStmtView;
use vstd::prelude::*;

verus! {

/// The token that names the column at index `j`.
pub open spec fn column_name(ts: Seq<SqlLetterView>, j: int) -> SqlLetterView {
    ts[4 + 3 * j]
}

/// The token that names the data type of the column at index `j`.
pub open spec fn column_type(ts: Seq<SqlLetterView>, j: int) -> SqlLetterView {
    ts[5 + 3 * j]
}

/// The token that follows the column at index `j`.
pub open spec fn column_end(ts: Seq<SqlLetterView>, j: int) -> SqlLetterView {
    ts[6 + 3 * j]
}

/// Whether the tokens `ts` spell a statement that creates a table of
/// `more + 1` columns:
/// `CREATE TABLE name ( name type , name type ... )`.
pub open spec fn spells_table(ts: Seq<SqlLetterView>, more: int) -> bool {
    &&& 0 <= more
    &&& ts.len() == 7 + 3 * more
    &&& ts[0].id == LetterId::Create
    &&& ts[1].id == LetterId::Table
    &&& ts[2].id == LetterId::Id
    &&& ts[3].id == LetterId::ParenL
    &&& forall|j: int| 0 <= j <= more ==> (#[trigger] column_name(ts, j)).id == LetterId::Id
    &&& forall|j: int| 0 <= j <= more ==> (#[trigger] column_type(ts, j)).id == LetterId::Id
    &&& forall|j: int| 0 <= j < more ==> (#[trigger] column_end(ts, j)).id == LetterId::Comma
    &&& column_end(ts, more).id == LetterId::ParenR
}

/// The statement that tokens which spell a table of `more + 1` columns
/// stand for: it covers the text from its beginning to the end of the last
/// token, is named by the third token, and has the columns in the order of
/// the text.
pub open spec fn table_of(ts: Seq<SqlLetterView>, more: int) -> SqlGrammarView {
    SqlGrammarView::CreateTableStmt(
        0,
        ts.last().end,
        CreateTableStmtView {
            name: ts[2].text,
            columns: Seq::new(
                (more + 1) as nat,
                |j: int|
                    ColumnClauseView {
                        name: column_name(ts, j).text,
                        data_type: column_type(ts, j).text,
                    },
            ),
        },
    )
}

/// Whether each token ends before the next does, as the tokens of a text
/// do.
pub open spec fn ordered(ts: Seq<SqlLetterView>) -> bool {
    forall|i: int, j: int|
        0 <= i < j < ts.len() ==> (#[trigger] ts[i]).end < (#[trigger] ts[j]).end
}

/// Whether a column with a comma after it begins at index `c`.
pub open spec fn is_pair(ts: Seq<SqlLetterView>, c: int) -> bool {
    &&& 0 <= c
    &&& c + 2 < ts.len()
    &&& ts[c].id == LetterId::Id
    &&& ts[c + 1].id == LetterId::Id
    &&& ts[c + 2].id == LetterId::Comma
}

/// How many columns with a comma after each follow one another from index
/// `c` on.
pub open spec fn pairs(ts: Seq<SqlLetterView>, c: int) -> int
    decreases ts.len() - c,
{
    if is_pair(ts, c) {
        1 + pairs(ts, c + 3)
    } else {
        0
    }
}

/// The node of the identifier at index `c`.
pub open spec fn ident_node(ts: Seq<SqlLetterView>, c: int) -> SqlGrammarView {
    SqlGrammarView::IdExpr(ts[c].start, ts[c].end, ts[c].text)
}

/// The node of the token at index `c`: it covers what the token covers.
pub open spec fn letter_node(ts: Seq<SqlLetterView>, c: int) -> SqlGrammarView {
    SqlGrammarView::Letter(ts[c].start, ts[c].end, ts[c])
}

/// The column whose name is the token at index `c`.
pub open spec fn column_at(ts: Seq<SqlLetterView>, c: int) -> ColumnClauseView {
    ColumnClauseView { name: ts[c].text, data_type: ts[c + 1].text }
}

/// The node of the column whose name is the token at index `c`, reached
/// at offset `n`.
pub open spec fn column_node(ts: Seq<SqlLetterView>, c: int, n: int) -> SqlGrammarView {
    SqlGrammarView::ColumnClause(n, ts[c + 1].end, column_at(ts, c))
}

/// What is repeated between the parentheses: a column, then a comma.
pub open spec fn column_and_comma() -> GrammarPatternView {
    GrammarPatternView::And(
        seq![
            GrammarPatternView::Grammar(GrammarId::ColumnClause),
            GrammarPatternView::Letter(LetterId::Comma),
        ],
    )
}

/// The node of a column and the comma after it, the column's name being
/// the token at index `c`, reached at offset `n`.
pub open spec fn pair_node(ts: Seq<SqlLetterView>, c: int, n: int) -> SqlGrammarView {
    SqlGrammarView::Vec(
        n,
        ts[c + 2].end,
        seq![column_node(ts, c, n), letter_node(ts, c + 2)],
    )
}

/// The nodes of `m` columns, each with the comma after it, the first
/// column's name being the token at index `c`, reached at offset `n`.
pub open spec fn pair_nodes(ts: Seq<SqlLetterView>, c: int, n: int, m: int) -> Seq<SqlGrammarView>
    decreases m,
{
    if m <= 0 {
        Seq::empty()
    } else {
        seq![pair_node(ts, c, n)] + pair_nodes(ts, c + 3, ts[c + 2].end, m - 1)
    }
}

/// A token pattern takes the token at the cursor exactly when it is of
/// the pattern's kind.
pub proof fn lemma_letter(id: LetterId, ts: Seq<SqlLetterView>, c: int, n: int)
    requires
        0 <= c,
    ensures
        GrammarPatternView::Letter(id).try_match(ts, c, n).result is Ok <==> c < ts.len()
            && ts[c].id == id,
        c < ts.len() && ts[c].id == id ==> GrammarPatternView::Letter(id).try_match(ts, c, n) == (
        Attempt { result: Ok((letter_node(ts, c), ts[c].end)), cursor: c + 1 }),
{
}

/// The identifier rule takes the token at the cursor exactly when it is
/// an identifier.
pub proof fn lemma_ident(ts: Seq<SqlLetterView>, c: int, n: int)
    requires
        0 <= c,
    ensures
        GrammarPatternView::Grammar(GrammarId::IdExpr).try_match(ts, c, n).result is Ok <==> c
            < ts.len() && ts[c].id == LetterId::Id,
        c < ts.len() && ts[c].id == LetterId::Id ==> GrammarPatternView::Grammar(
            GrammarId::IdExpr,
        ).try_match(ts, c, n) == (Attempt {
            result: Ok((ident_node(ts, c), ts[c].end)),
            cursor: c + 1,
        }),
{
    reveal_with_fuel(GrammarPatternView::try_match, 2);
}

/// The column rule takes the two tokens at the cursor exactly when both
/// are identifiers.
pub proof fn lemma_column(ts: Seq<SqlLetterView>, c: int, n: int)
    requires
        0 <= c,
    ensures
        GrammarPatternView::Grammar(GrammarId::ColumnClause).try_match(ts, c, n).result is Ok
            <==> c + 1 < ts.len() && ts[c].id == LetterId::Id && ts[c + 1].id == LetterId::Id,
        c + 1 < ts.len() && ts[c].id == LetterId::Id && ts[c + 1].id == LetterId::Id
            ==> GrammarPatternView::Grammar(GrammarId::ColumnClause).try_match(ts, c, n) == (
        Attempt { result: Ok((column_node(ts, c, n), ts[c + 1].end)), cursor: c + 2 }),
{
    let ident = GrammarPatternView::Grammar(GrammarId::IdExpr);
    let ps = seq![ident, ident];
    assert(GrammarId::ColumnClause.definition() == GrammarPatternView::And(ps));
    reveal_with_fuel(GrammarPatternView::try_match, 2);
    lemma_ident(ts, c, n);
    if c + 1 < ts.len() && ts[c].id == LetterId::Id && ts[c + 1].id == LetterId::Id {
        let cursors = seq![c, c + 1, c + 2];
        let offsets = seq![n, ts[c].end, ts[c + 1].end];
        let nodes = seq![ident_node(ts, c), ident_node(ts, c + 1)];
        lemma_ident(ts, c + 1, ts[c].end);
        assert(runs(ps, ts, cursors, offsets, nodes));
        GrammarPatternView::lemma_match_all_runs(ps, ts, cursors, offsets, nodes);
        lemma_spliced_plain(nodes);
        let none = Seq::<SqlGrammarView>::empty();
        lemma_idents_push(none, nodes[0]);
        lemma_idents_push(none.push(nodes[0]), nodes[1]);
        assert(none.push(nodes[0]).push(nodes[1]) =~= nodes);
        assert(idents(none) =~= Seq::<Seq<char>>::empty());
        assert(idents(nodes) =~= seq![ts[c].text, ts[c + 1].text]);
    } else if GrammarPatternView::match_all(ps, ts, c, n).result is Ok {
        GrammarPatternView::lemma_match_all_inverts(ps, ts, c, n);
        let cursors = GrammarPatternView::cursors_of(ps, ts, c, n);
        let offsets = GrammarPatternView::offsets_of(ps, ts, c, n);
        assert(ps[0].try_match(ts, cursors[0], offsets[0]).cursor == cursors[1]);
        assert(ps[1].try_match(ts, cursors[1], offsets[1]).cursor == cursors[2]);
        lemma_ident(ts, c + 1, offsets[1]);
    }
}

/// A column and a comma are taken together exactly when a column with a
/// comma after it begins at the cursor.
pub proof fn lemma_pair(ts: Seq<SqlLetterView>, c: int, n: int)
    requires
        0 <= c,
    ensures
        column_and_comma().try_match(ts, c, n).result is Ok <==> is_pair(ts, c),
        is_pair(ts, c) ==> column_and_comma().try_match(ts, c, n) == (Attempt {
            result: Ok((pair_node(ts, c, n), ts[c + 2].end)),
            cursor: c + 3,
        }),
{
    let ps = column_and_comma()->And_0;
    lemma_column(ts, c, n);
    if is_pair(ts, c) {
        let cursors = seq![c, c + 2, c + 3];
        let offsets = seq![n, ts[c + 1].end, ts[c + 2].end];
        let nodes = seq![column_node(ts, c, n), letter_node(ts, c + 2)];
        lemma_letter(LetterId::Comma, ts, c + 2, ts[c + 1].end);
        assert(runs(ps, ts, cursors, offsets, nodes));
        GrammarPatternView::lemma_match_all_runs(ps, ts, cursors, offsets, nodes);
        lemma_spliced_plain(nodes);
    } else if GrammarPatternView::match_all(ps, ts, c, n).result is Ok {
        GrammarPatternView::lemma_match_all_inverts(ps, ts, c, n);
        let cursors = GrammarPatternView::cursors_of(ps, ts, c, n);
        let offsets = GrammarPatternView::offsets_of(ps, ts, c, n);
        assert(ps[0].try_match(ts, cursors[0], offsets[0]).cursor == cursors[1]);
        assert(ps[1].try_match(ts, cursors[1], offsets[1]).cursor == cursors[2]);
        lemma_letter(LetterId::Comma, ts, c + 2, offsets[1]);
    }
}

/// The offset that matching has reached when `m` columns with their
/// commas were taken from index `c` on, from offset `n`.
pub open spec fn reached(ts: Seq<SqlLetterView>, c: int, n: int, m: int) -> int {
    if m > 0 {
        ts[c + 3 * m - 1].end
    } else {
        n
    }
}

/// Repetition takes every column that has a comma after it, and
/// nothing else.
pub proof fn lemma_pairs_repeated(ts: Seq<SqlLetterView>, c: int, n: int)
    requires
        0 <= c,
    ensures
        0 <= pairs(ts, c),
        c + 3 * pairs(ts, c) <= ts.len() || pairs(ts, c) == 0,
        !is_pair(ts, c + 3 * pairs(ts, c)),
        forall|j: int| 0 <= j < pairs(ts, c) ==> is_pair(ts, #[trigger] (c + 3 * j)),
        column_and_comma().repeat(ts, c, n) == (Repeats {
            nodes: pair_nodes(ts, c, n, pairs(ts, c)),
            end: reached(ts, c, n, pairs(ts, c)),
            cursor: c + 3 * pairs(ts, c),
        }),
    decreases ts.len() - c,
{
    lemma_pair(ts, c, n);
    if is_pair(ts, c) {
        lemma_pairs_repeated(ts, c + 3, ts[c + 2].end);
        let m = pairs(ts, c);
        assert forall|j: int| 0 <= j < m implies is_pair(ts, #[trigger] (c + 3 * j)) by {
            if j > 0 {
                assert(is_pair(ts, (c + 3) + 3 * (j - 1)));
                assert((c + 3) + 3 * (j - 1) == c + 3 * j);
            }
        }
        assert(c + 3 + 3 * (m - 1) == c + 3 * m);
    }
}

/// Spliced, the nodes of columns with their commas hold one column each
/// and no identifier.
pub proof fn lemma_pair_columns(ts: Seq<SqlLetterView>, c: int, n: int, m: int)
    requires
        0 <= m,
    ensures
        columns(spliced(pair_nodes(ts, c, n, m))) == Seq::new(
            m as nat,
            |j: int| column_at(ts, c + 3 * j),
        ),
        idents(spliced(pair_nodes(ts, c, n, m))).len() == 0,
    decreases m,
{
    let none = Seq::<SqlGrammarView>::empty();
    lemma_spliced_empty();
    if m == 0 {
        assert(columns(none) =~= Seq::new(0 as nat, |j: int| column_at(ts, c + 3 * j)));
    } else {
        let pair = pair_node(ts, c, n);
        let rest = pair_nodes(ts, c + 3, ts[c + 2].end, m - 1);
        let column = column_node(ts, c, n);
        let comma = letter_node(ts, c + 2);
        lemma_pair_columns(ts, c + 3, ts[c + 2].end, m - 1);
        lemma_spliced_push(none, pair);
        assert(none.push(pair) =~= seq![pair]);
        assert(none + pair.children() =~= pair.children());
        lemma_spliced_add(seq![pair], rest);
        lemma_columns_push(none, column);
        lemma_columns_push(none.push(column), comma);
        lemma_idents_push(none, column);
        lemma_idents_push(none.push(column), comma);
        assert(none.push(column).push(comma) =~= pair.children());
        lemma_columns_add(pair.children(), spliced(rest));
        lemma_idents_add(pair.children(), spliced(rest));
        assert(columns(none) =~= Seq::<ColumnClauseView>::empty());
        assert(idents(none) =~= Seq::<Seq<char>>::empty());
        assert(columns(spliced(pair_nodes(ts, c, n, m))) =~= Seq::new(
            m as nat,
            |j: int| column_at(ts, c + 3 * j),
        )) by {
            let found = columns(spliced(pair_nodes(ts, c, n, m)));
            let first = columns(pair.children());
            let others = columns(spliced(rest));
            assert(found == first + others);
            assert(first =~= seq![column_at(ts, c)]);
            assert forall|j: int| 0 <= j < m implies found[j] == column_at(ts, c + 3 * j) by {
                if j > 0 {
                    assert(found[j] == others[j - 1]);
                    assert(c + 3 + 3 * (j - 1) == c + 3 * j);
                }
            }
        }
    }
}

/// In tokens that spell a table, a comma follows every column but the
/// last.
pub proof fn lemma_table_pairs(ts: Seq<SqlLetterView>, more: int, j: int)
    requires
        spells_table(ts, more),
        0 <= j <= more,
    ensures
        pairs(ts, 4 + 3 * j) == more - j,
    decreases more - j,
{
    assert(column_name(ts, j).id == LetterId::Id);
    assert(column_type(ts, j).id == LetterId::Id);
    if j < more {
        assert(column_end(ts, j).id == LetterId::Comma);
        lemma_table_pairs(ts, more, j + 1);
        assert(4 + 3 * j + 3 == 4 + 3 * (j + 1));
    }
}

/// What the rule of the statement makes of tokens that begin like a
/// table and have, after the columns with a comma, one more column and the
/// closing parenthesis.
proof fn lemma_table_matched(ts: Seq<SqlLetterView>)
    requires
        4 <= ts.len(),
        ts[0].id == LetterId::Create,
        ts[1].id == LetterId::Table,
        ts[2].id == LetterId::Id,
        ts[3].id == LetterId::ParenL,
        6 + 3 * pairs(ts, 4) < ts.len(),
        column_name(ts, pairs(ts, 4)).id == LetterId::Id,
        column_type(ts, pairs(ts, 4)).id == LetterId::Id,
        column_end(ts, pairs(ts, 4)).id == LetterId::ParenR,
    ensures
        GrammarId::CreateTableStmt.definition().try_match(ts, 0, 0).result matches Ok(
            (node, end),
        ) && end == column_end(ts, pairs(ts, 4)).end && reduced(GrammarId::CreateTableStmt, node) == (
        SqlGrammarView::CreateTableStmt(
            0,
            end,
            CreateTableStmtView {
                name: ts[2].text,
                columns: Seq::new(
                    (pairs(ts, 4) + 1) as nat,
                    |j: int|
                        ColumnClauseView {
                            name: column_name(ts, j).text,
                            data_type: column_type(ts, j).text,
                        },
                ),
            },
        )),
{
    let more = pairs(ts, 4);
    lemma_pairs_repeated(ts, 4, ts[3].end);
    let last = 4 + 3 * more;
    let before = reached(ts, 4, ts[3].end, more);
    let between = pair_nodes(ts, 4, ts[3].end, more);
    let ps = GrammarId::CreateTableStmt.definition()->And_0;
    let cursors = seq![0, 1, 2, 3, 4, last, last + 2, last + 3];
    let offsets = seq![
        0,
        ts[0].end,
        ts[1].end,
        ts[2].end,
        ts[3].end,
        before,
        ts[last + 1].end,
        ts[last + 2].end,
    ];
    let head = seq![
        letter_node(ts, 0),
        letter_node(ts, 1),
        ident_node(ts, 2),
        letter_node(ts, 3),
    ];
    let middle = SqlGrammarView::Vec(ts[3].end, before, spliced(between));
    let tail = seq![column_node(ts, last, before), letter_node(ts, last + 2)];
    let nodes = head + seq![middle] + tail;
    lemma_letter(LetterId::Create, ts, 0, 0);
    lemma_letter(LetterId::Table, ts, 1, ts[0].end);
    lemma_ident(ts, 2, ts[1].end);
    lemma_letter(LetterId::ParenL, ts, 3, ts[2].end);
    lemma_column(ts, last, before);
    lemma_letter(LetterId::ParenR, ts, last + 2, ts[last + 1].end);
    assert(ps[4] == GrammarPatternView::Any(Box::new(column_and_comma())));
    assert(ps[4].try_match(ts, 4, ts[3].end) == (Attempt {
        result: Ok((middle, before)),
        cursor: last,
    }));
    assert(runs(ps, ts, cursors, offsets, nodes));
    GrammarPatternView::lemma_match_all_runs(ps, ts, cursors, offsets, nodes);

    let none = Seq::<SqlGrammarView>::empty();
    lemma_spliced_empty();
    lemma_spliced_plain(head);
    lemma_spliced_plain(tail);
    lemma_spliced_push(none, middle);
    assert(none.push(middle) =~= seq![middle]);
    assert(none + middle.children() =~= spliced(between));
    lemma_spliced_add(head, seq![middle]);
    lemma_spliced_add(head + seq![middle], tail);
    let inside = spliced(nodes);
    assert(inside == head + spliced(between) + tail);

    lemma_pair_columns(ts, 4, ts[3].end, more);
    lemma_idents_add(head, spliced(between));
    lemma_idents_add(head + spliced(between), tail);
    lemma_columns_add(head, spliced(between));
    lemma_columns_add(head + spliced(between), tail);
    lemma_idents_push(none, head[0]);
    lemma_idents_push(none.push(head[0]), head[1]);
    lemma_idents_push(none.push(head[0]).push(head[1]), head[2]);
    lemma_idents_push(none.push(head[0]).push(head[1]).push(head[2]), head[3]);
    lemma_columns_push(none, head[0]);
    lemma_columns_push(none.push(head[0]), head[1]);
    lemma_columns_push(none.push(head[0]).push(head[1]), head[2]);
    lemma_columns_push(none.push(head[0]).push(head[1]).push(head[2]), head[3]);
    assert(none.push(head[0]).push(head[1]).push(head[2]).push(head[3]) =~= head);
    lemma_columns_push(none, tail[0]);
    lemma_columns_push(none.push(tail[0]), tail[1]);
    assert(none.push(tail[0]).push(tail[1]) =~= tail);
    assert(idents(none) =~= Seq::<Seq<char>>::empty());
    assert(columns(none) =~= Seq::<ColumnClauseView>::empty());
    assert(idents(head) =~= seq![ts[2].text]);
    assert(idents(inside)[0] == ts[2].text);
    assert(columns(head) =~= Seq::<ColumnClauseView>::empty());
    assert(columns(tail) =~= seq![column_at(ts, last)]);
    assert(columns(inside) =~= Seq::new(
        (more + 1) as nat,
        |j: int|
            ColumnClauseView {
                name: column_name(ts, j).text,
                data_type: column_type(ts, j).text,
            },
    )) by {
        let found = columns(inside);
        let inner = columns(spliced(between));
        assert(found =~= inner + seq![column_at(ts, last)]);
        assert forall|j: int| 0 <= j <= more implies found[j] == (ColumnClauseView {
            name: column_name(ts, j).text,
            data_type: column_type(ts, j).text,
        }) by {
            if j < more {
                assert(found[j] == inner[j]);
            }
        }
    }
}

/// Tokens that spell a table are read as that table: the rule of the
/// statement matches all of them, and what it makes of them is the table
/// that they spell.
pub proof fn lemma_table_parsed(ts: Seq<SqlLetterView>, more: int)
    requires
        spells_table(ts, more),
    ensures
        GrammarId::CreateTableStmt.parsed(ts) == Ok::<SqlGrammarView, SqlErrView>(
            table_of(ts, more),
        ),
{
    lemma_table_pairs(ts, more, 0);
    assert(column_name(ts, more).id == LetterId::Id);
    assert(column_type(ts, more).id == LetterId::Id);
    lemma_table_matched(ts);
    assert(ts.last() == column_end(ts, more));
}

/// Only tokens that spell a table are read as a statement: where the
/// rule of the statement makes a node of tokens that end one after the
/// other, the tokens spell a table, with as many columns before the last
/// as have a comma after them.
pub proof fn lemma_parsed_table(ts: Seq<SqlLetterView>)
    requires
        ordered(ts),
        GrammarId::CreateTableStmt.parsed(ts) is Ok,
    ensures
        spells_table(ts, pairs(ts, 4)),
{
    let more = pairs(ts, 4);
    let last = 4 + 3 * more;
    let ps = GrammarId::CreateTableStmt.definition()->And_0;
    GrammarPatternView::lemma_match_all_inverts(ps, ts, 0, 0);
    let cursors = GrammarPatternView::cursors_of(ps, ts, 0, 0);
    let offsets = GrammarPatternView::offsets_of(ps, ts, 0, 0);
    assert(ps[0].try_match(ts, cursors[0], offsets[0]).cursor == cursors[1]);
    lemma_letter(LetterId::Create, ts, 0, 0);
    assert(ps[1].try_match(ts, cursors[1], offsets[1]).cursor == cursors[2]);
    lemma_letter(LetterId::Table, ts, 1, offsets[1]);
    assert(ps[2].try_match(ts, cursors[2], offsets[2]).cursor == cursors[3]);
    lemma_ident(ts, 2, offsets[2]);
    assert(ps[3].try_match(ts, cursors[3], offsets[3]).cursor == cursors[4]);
    lemma_letter(LetterId::ParenL, ts, 3, offsets[3]);
    assert(ps[4].try_match(ts, cursors[4], offsets[4]).cursor == cursors[5]);
    assert(ps[4] == GrammarPatternView::Any(Box::new(column_and_comma())));
    lemma_pairs_repeated(ts, 4, offsets[4]);
    assert(ps[5].try_match(ts, cursors[5], offsets[5]).cursor == cursors[6]);
    lemma_column(ts, last, offsets[5]);
    assert(ps[6].try_match(ts, cursors[6], offsets[6]).cursor == cursors[7]);
    lemma_letter(LetterId::ParenR, ts, last + 2, offsets[6]);
    assert(offsets[7] == ts[last + 2].end);
    if ts.len() > last + 3 {
        assert(ts[last + 2].end < ts[ts.len() - 1].end);
    }
    assert forall|j: int| 0 <= j <= more implies (#[trigger] column_name(ts, j)).id
        == LetterId::Id by {
        if j < more {
            assert(is_pair(ts, 4 + 3 * j));
        }
    }
    assert forall|j: int| 0 <= j <= more implies (#[trigger] column_type(ts, j)).id
        == LetterId::Id by {
        if j < more {
            assert(is_pair(ts, 4 + 3 * j));
        }
    }
    assert forall|j: int| 0 <= j < more implies (#[trigger] column_end(ts, j)).id
        == LetterId::Comma by {
        assert(is_pair(ts, 4 + 3 * j));
    }
    reveal_with_fuel(GrammarPatternView::try_match, 2);
}

/// Tokens that cover a text end one after the other.
pub proof fn lemma_tiles_ordered(ts: Seq<SqlLetterView>, s: Seq<char>, n: int)
    requires
        tiles(ts, s, n),
    ensures
        ordered(ts),
{
    assert forall|i: int, j: int| 0 <= i < j < ts.len() implies (#[trigger] ts[i]).end < (
    #[trigger] ts[j]).end by {
        lemma_tiles_ordered_between(ts, s, n, i, j);
    }
}

/// Of tokens that cover a text, an earlier one ends before a later one.
proof fn lemma_tiles_ordered_between(ts: Seq<SqlLetterView>, s: Seq<char>, n: int, i: int, j: int)
    requires
        tiles(ts, s, n),
        0 <= i < j < ts.len(),
    ensures
        ts[i].end < ts[j].end,
    decreases j - i,
{
    assert(ts[j - 1].end == ts[j].start);
    assert(ts[j].start < ts[j].end);
    if i < j - 1 {
        lemma_tiles_ordered_between(ts, s, n, i, j - 1);
    }
}

/// Leaving tokens out keeps the others in their order.
pub proof fn lemma_significant_ordered(ts: Seq<SqlLetterView>)
    requires
        ordered(ts),
    ensures
        ordered(significant(ts)),
        forall|i: int|
            0 <= i < significant(ts).len() ==> ts.contains(#[trigger] significant(ts)[i]),
    decreases ts.len(),
{
    reveal(Seq::filter);
    if ts.len() > 0 {
        let front = ts.drop_last();
        let last = ts.last();
        assert forall|i: int, j: int| 0 <= i < j < front.len() implies (#[trigger] front[i]).end < (
        #[trigger] front[j]).end by {
            assert(front[i] == ts[i] && front[j] == ts[j]);
        }
        lemma_significant_ordered(front);
        let kept = significant(front);
        assert forall|i: int| 0 <= i < kept.len() implies ts.contains(#[trigger] kept[i]) && kept[i].end
            < last.end by {
            assert(front.contains(kept[i]));
            let k = choose|k: int| 0 <= k < front.len() && front[k] == kept[i];
            assert(ts[k] == kept[i]);
            assert(ts[k].end < ts[ts.len() - 1].end);
        }
        assert(ts[ts.len() - 1] == last);
    }
}

/// Tokens that cover a text lie in order: none ends before it begins, and
/// each ends before those after it begin. So do those of them that are
/// no white space.
pub proof fn lemma_tiles_spaced(ts: Seq<SqlLetterView>, s: Seq<char>, n: int)
    requires
        tiles(ts, s, n),
    ensures
        spaced(ts),
        spaced(significant(ts)),
{
    assert forall|i: int, j: int| 0 <= i < j < ts.len() implies (#[trigger] ts[i]).end <= (
    #[trigger] ts[j]).start by {
        assert(ts[j - 1].end == ts[j].start);
        if i < j - 1 {
            lemma_tiles_ordered_between(ts, s, n, i, j - 1);
        }
    }
    lemma_significant_spaced(ts);
}

/// Leaving tokens out of tokens that lie in order leaves tokens that lie
/// in order.
pub proof fn lemma_significant_spaced(ts: Seq<SqlLetterView>)
    requires
        spaced(ts),
    ensures
        spaced(significant(ts)),
        forall|i: int|
            0 <= i < significant(ts).len() ==> ts.contains(#[trigger] significant(ts)[i]),
    decreases ts.len(),
{
    reveal(Seq::filter);
    if ts.len() > 0 {
        let front = ts.drop_last();
        let last = ts.last();
        assert forall|i: int| 0 <= i < front.len() implies (#[trigger] front[i]).start
            <= front[i].end by {
            assert(front[i] == ts[i]);
        }
        assert forall|i: int, j: int| 0 <= i < j < front.len() implies (#[trigger] front[i]).end <= (
        #[trigger] front[j]).start by {
            assert(front[i] == ts[i] && front[j] == ts[j]);
        }
        lemma_significant_spaced(front);
        let kept = significant(front);
        assert forall|i: int| 0 <= i < kept.len() implies ts.contains(#[trigger] kept[i]) && kept[i].end
            <= last.start && kept[i].start <= kept[i].end by {
            assert(front.contains(kept[i]));
            let k = choose|k: int| 0 <= k < front.len() && front[k] == kept[i];
            assert(ts[k] == kept[i]);
            assert(ts[k].end <= ts[ts.len() - 1].start);
        }
        assert(ts[ts.len() - 1] == last);
    }
}

/// A text is read as a statement exactly when its tokens, white space
/// aside, spell a table, and the statement is then that table. A text
/// that is cut into tokens which spell no table is an error.
pub proof fn lemma_parsed_text(s: Seq<char>)
    ensures
        match parsed(s) {
            Ok(node) => {
                &&& tokens(s) matches Ok(all)
                &&& spells_table(significant(all), pairs(significant(all), 4))
                &&& node == table_of(significant(all), pairs(significant(all), 4))
                &&& node.start() == 0
                &&& 0 < node.end() <= s.len()
            },
            Err(_) => tokens(s) matches Ok(all) ==> forall|more: int|
                !spells_table(significant(all), more),
        },
{
    lemma_tokens_tile(s, 0);
    match tokens(s) {
        Ok(all) => {
            let ts = significant(all);
            lemma_tiles_ordered(all, s, 0);
            lemma_significant_ordered(all);
            if parsed(s) is Ok {
                lemma_parsed_table(ts);
                lemma_table_parsed(ts, pairs(ts, 4));
                let last = ts[ts.len() - 1];
                assert(all.contains(last));
                let k = choose|k: int| 0 <= k < all.len() && all[k] == last;
                assert(all[k].start < all[k].end <= s.len());
                if k > 0 {
                    assert(all[0].end < all[k].end);
                }
                assert(all[0].start < all[0].end);
            } else {
                assert forall|more: int| !spells_table(ts, more) by {
                    if spells_table(ts, more) {
                        lemma_table_parsed(ts, more);
                    }
                }
            }
        },
        Err(_) => {},
    }
}

} // verus!
