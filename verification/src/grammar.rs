//! The nodes that matching produces, and how a rule of the grammar makes
//! its node of the nodes that its definition matched.

use crate::clause::{ColumnClause, ColumnClauseView};
use crate::expr::IdExpr;
use crate::grammar_id::GrammarId;
use crate::letter::{SqlLetter, SqlLetterView};
use crate::letter_id::LetterId;
use crate::stmt::{CreateTableStmt, CreateTableStmtView};
use core::ops::Range;
use vstd::prelude::*;
use vstd::std_specs::convert::FromSpecImpl;

verus! {

/// A node of what matching produces. Each node holds the range of
/// character offsets that it covers, then what it stands for: a token, the
/// nodes of a sequence, or what a rule of the grammar made of its nodes.
#[derive(Debug, PartialEq, Eq)]
pub enum SqlGrammar {
    /// A token.
    Letter(usize, usize, SqlLetter),
    /// The nodes of a sequence or of a repetition.
    Vec(usize, usize, Vec<SqlGrammar>),
    /// A statement that creates a table.
    CreateTableStmt(usize, usize, CreateTableStmt),
    /// A column of a table.
    ColumnClause(usize, usize, ColumnClause),
    /// An identifier.
    IdExpr(usize, usize, IdExpr),
}

/// A node as a mathematical value.
pub enum SqlGrammarView {
    Letter(int, int, SqlLetterView),
    Vec(int, int, Seq<SqlGrammarView>),
    CreateTableStmt(int, int, CreateTableStmtView),
    ColumnClause(int, int, ColumnClauseView),
    IdExpr(int, int, Seq<char>),
}

impl SqlGrammarView {
    /// The kind of the node.
    pub open spec fn id(self) -> GrammarId {
        match self {
            SqlGrammarView::Letter(_, _, _) => GrammarId::Letter,
            SqlGrammarView::Vec(_, _, _) => GrammarId::Vec,
            SqlGrammarView::CreateTableStmt(_, _, _) => GrammarId::CreateTableStmt,
            SqlGrammarView::ColumnClause(_, _, _) => GrammarId::ColumnClause,
            SqlGrammarView::IdExpr(_, _, _) => GrammarId::IdExpr,
        }
    }

    /// The offset at which the node begins.
    pub open spec fn start(self) -> int {
        match self {
            SqlGrammarView::Letter(start, _, _) => start,
            SqlGrammarView::Vec(start, _, _) => start,
            SqlGrammarView::CreateTableStmt(start, _, _) => start,
            SqlGrammarView::ColumnClause(start, _, _) => start,
            SqlGrammarView::IdExpr(start, _, _) => start,
        }
    }

    /// The offset at which the node ends.
    pub open spec fn end(self) -> int {
        match self {
            SqlGrammarView::Letter(_, end, _) => end,
            SqlGrammarView::Vec(_, end, _) => end,
            SqlGrammarView::CreateTableStmt(_, end, _) => end,
            SqlGrammarView::ColumnClause(_, end, _) => end,
            SqlGrammarView::IdExpr(_, end, _) => end,
        }
    }

    /// The nodes that a rule reads: those of a sequence, or the node
    /// itself where it is no sequence.
    pub open spec fn children(self) -> Seq<SqlGrammarView> {
        match self {
            SqlGrammarView::Vec(_, _, nodes) => nodes,
            _ => seq![self],
        }
    }

    /// The name that an identifier node holds.
    pub open spec fn ident(self) -> Option<Seq<char>> {
        match self {
            SqlGrammarView::IdExpr(_, _, name) => Some(name),
            _ => None,
        }
    }

    /// The column that a column clause node holds.
    pub open spec fn column(self) -> Option<ColumnClauseView> {
        match self {
            SqlGrammarView::ColumnClause(_, _, column) => Some(column),
            _ => None,
        }
    }

    /// Whether the node does not end before it begins and, where it is a
    /// sequence, its nodes lie inside it in order.
    pub open spec fn well_spanned(self) -> bool {
        &&& self.start() <= self.end()
        &&& in_order(self.children(), self.start(), self.end())
    }

    /// Whether no sequence stands directly inside this sequence. True of
    /// every node that is no sequence.
    pub open spec fn flat(self) -> bool {
        match self {
            SqlGrammarView::Vec(_, _, nodes) => forall|i: int|
                0 <= i < nodes.len() ==> !((#[trigger] nodes[i]) is Vec),
            _ => true,
        }
    }
}

/// Whether the nodes of `nodes` lie between the offsets `lo` and `hi`,
/// none of them ends before it begins, and each ends before the next
/// begins.
pub open spec fn in_order(nodes: Seq<SqlGrammarView>, lo: int, hi: int) -> bool {
    &&& forall|i: int|
        0 <= i < nodes.len() ==> lo <= (#[trigger] nodes[i]).start() <= nodes[i].end() <= hi
    &&& forall|i: int, j: int|
        0 <= i < j < nodes.len() ==> (#[trigger] nodes[i]).end() <= (#[trigger] nodes[j]).start()
}

/// The names of the identifier nodes among `nodes`, in order.
pub open spec fn idents(nodes: Seq<SqlGrammarView>) -> Seq<Seq<char>> {
    nodes.filter_map(|node: SqlGrammarView| node.ident())
}

/// The columns of the column clause nodes among `nodes`, in order.
pub open spec fn columns(nodes: Seq<SqlGrammarView>) -> Seq<ColumnClauseView> {
    nodes.filter_map(|node: SqlGrammarView| node.column())
}

/// The nodes of `nodes` in order, with the nodes of each sequence among
/// them in the place of that sequence.
pub open spec fn spliced(nodes: Seq<SqlGrammarView>) -> Seq<SqlGrammarView> {
    nodes.map_values(|node: SqlGrammarView| node.children()).flatten()
}

/// The node that a token becomes where a rule takes it up: an identifier
/// token becomes an identifier node with the token's text for its name,
/// any other token a token node. Either covers what the token covers.
pub open spec fn promoted(token: SqlLetterView) -> SqlGrammarView {
    if token.id == LetterId::Id {
        SqlGrammarView::IdExpr(token.start, token.end, token.text)
    } else {
        SqlGrammarView::Letter(token.start, token.end, token)
    }
}

/// Whether `node` holds what the rule `id` needs to make its node: a
/// table needs a name, a column a name and a data type, an identifier a
/// token.
pub open spec fn reducible(id: GrammarId, node: SqlGrammarView) -> bool {
    match id {
        GrammarId::Letter => true,
        GrammarId::Vec => true,
        GrammarId::CreateTableStmt => idents(node.children()).len() >= 1,
        GrammarId::ColumnClause => idents(node.children()).len() >= 2,
        GrammarId::IdExpr => node is Letter,
    }
}

/// The node that the kind `id` makes of `node`.
///
/// A token stays as it is. A sequence takes up the nodes of the sequences
/// directly inside it. A table takes the first identifier among the nodes
/// for its name and every column clause among them, in order, for its
/// columns. A column takes the first identifier for its name and the
/// second for its data type. An identifier is its token, promoted.
pub open spec fn reduced(id: GrammarId, node: SqlGrammarView) -> SqlGrammarView {
    match id {
        GrammarId::Letter => node,
        GrammarId::Vec => SqlGrammarView::Vec(node.start(), node.end(), spliced(node.children())),
        GrammarId::CreateTableStmt => SqlGrammarView::CreateTableStmt(
            node.start(),
            node.end(),
            CreateTableStmtView {
                name: idents(node.children())[0],
                columns: columns(node.children()),
            },
        ),
        GrammarId::ColumnClause => SqlGrammarView::ColumnClause(
            node.start(),
            node.end(),
            ColumnClauseView {
                name: idents(node.children())[0],
                data_type: idents(node.children())[1],
            },
        ),
        GrammarId::IdExpr => match node {
            SqlGrammarView::Letter(_, _, token) => promoted(token),
            _ => node,
        },
    }
}

impl SqlGrammar {
    /// The node as a mathematical value.
    pub open spec fn model(&self) -> SqlGrammarView
        decreases self,
    {
        match self {
            SqlGrammar::Letter(start, end, token) => SqlGrammarView::Letter(
                *start as int,
                *end as int,
                token@,
            ),
            SqlGrammar::Vec(start, end, nodes) => SqlGrammarView::Vec(
                *start as int,
                *end as int,
                Seq::new(
                    nodes.len() as nat,
                    |i: int|
                        if 0 <= i < nodes.len() {
                            nodes[i].model()
                        } else {
                            arbitrary()
                        },
                ),
            ),
            SqlGrammar::CreateTableStmt(start, end, stmt) => SqlGrammarView::CreateTableStmt(
                *start as int,
                *end as int,
                stmt@,
            ),
            SqlGrammar::ColumnClause(start, end, column) => SqlGrammarView::ColumnClause(
                *start as int,
                *end as int,
                column@,
            ),
            SqlGrammar::IdExpr(start, end, name) => SqlGrammarView::IdExpr(
                *start as int,
                *end as int,
                name@,
            ),
        }
    }
}

impl View for SqlGrammar {
    type V = SqlGrammarView;

    open spec fn view(&self) -> SqlGrammarView {
        self.model()
    }
}

impl DeepView for SqlGrammar {
    type V = SqlGrammarView;

    open spec fn deep_view(&self) -> SqlGrammarView {
        self.model()
    }
}

/// The view of a sequence node holds the views of its nodes.
pub proof fn lemma_sequence_view(start: usize, end: usize, nodes: Vec<SqlGrammar>)
    ensures
        SqlGrammar::Vec(start, end, nodes)@ == SqlGrammarView::Vec(
            start as int,
            end as int,
            nodes.deep_view(),
        ),
{
    assert(SqlGrammar::Vec(start, end, nodes)@->Vec_2 =~= nodes.deep_view());
}

/// The views of the nodes of `nodes`, in order.
pub open spec fn views(nodes: Seq<SqlGrammar>) -> Seq<SqlGrammarView> {
    nodes.map_values(|node: SqlGrammar| node@)
}

/// One more node adds its name to the names, if it is an identifier.
pub proof fn lemma_idents_push(nodes: Seq<SqlGrammarView>, node: SqlGrammarView)
    ensures
        idents(nodes.push(node)) == match node.ident() {
            Some(name) => idents(nodes).push(name),
            None => idents(nodes),
        },
{
    assert(nodes.push(node).drop_last() =~= nodes);
    assert(idents(nodes) + seq![node.ident()->0] =~= idents(nodes).push(node.ident()->0));
}

/// One more node adds its column to the columns, if it is a column clause.
pub proof fn lemma_columns_push(nodes: Seq<SqlGrammarView>, node: SqlGrammarView)
    ensures
        columns(nodes.push(node)) == match node.column() {
            Some(column) => columns(nodes).push(column),
            None => columns(nodes),
        },
{
    assert(nodes.push(node).drop_last() =~= nodes);
    assert(columns(nodes) + seq![node.column()->0] =~= columns(nodes).push(node.column()->0));
}

/// One more node adds what it holds to the spliced nodes.
pub proof fn lemma_spliced_push(nodes: Seq<SqlGrammarView>, node: SqlGrammarView)
    ensures
        spliced(nodes.push(node)) == spliced(nodes) + node.children(),
{
    let parts = nodes.map_values(|node: SqlGrammarView| node.children());
    assert(nodes.push(node).map_values(|node: SqlGrammarView| node.children()) =~= parts.push(
        node.children(),
    ));
    parts.lemma_flatten_and_flatten_alt_are_equivalent();
    parts.push(node.children()).lemma_flatten_and_flatten_alt_are_equivalent();
    assert(parts.push(node.children()).drop_last() =~= parts);
}

/// Splicing no nodes gives none.
pub proof fn lemma_spliced_empty()
    ensures
        spliced(Seq::<SqlGrammarView>::empty()) == Seq::<SqlGrammarView>::empty(),
{
    assert(Seq::<SqlGrammarView>::empty().map_values(|node: SqlGrammarView| node.children())
        =~= Seq::<Seq<SqlGrammarView>>::empty());
}

/// The names among nodes put one after the other are the names among
/// the first, then those among the second.
pub proof fn lemma_idents_add(front: Seq<SqlGrammarView>, back: Seq<SqlGrammarView>)
    ensures
        idents(front + back) == idents(front) + idents(back),
    decreases back.len(),
{
    if back.len() == 0 {
        assert(front + back =~= front);
        assert(idents(front) + idents(back) =~= idents(front));
    } else {
        let last = back.last();
        lemma_idents_add(front, back.drop_last());
        lemma_idents_push(front + back.drop_last(), last);
        lemma_idents_push(back.drop_last(), last);
        assert((front + back.drop_last()).push(last) =~= front + back);
        assert(back.drop_last().push(last) =~= back);
        assert(idents(front + back) =~= idents(front) + idents(back));
    }
}

/// The columns among nodes put one after the other are the columns among
/// the first, then those among the second.
pub proof fn lemma_columns_add(front: Seq<SqlGrammarView>, back: Seq<SqlGrammarView>)
    ensures
        columns(front + back) == columns(front) + columns(back),
    decreases back.len(),
{
    if back.len() == 0 {
        assert(front + back =~= front);
        assert(columns(front) + columns(back) =~= columns(front));
    } else {
        let last = back.last();
        lemma_columns_add(front, back.drop_last());
        lemma_columns_push(front + back.drop_last(), last);
        lemma_columns_push(back.drop_last(), last);
        assert((front + back.drop_last()).push(last) =~= front + back);
        assert(back.drop_last().push(last) =~= back);
        assert(columns(front + back) =~= columns(front) + columns(back));
    }
}

/// Splicing nodes put one after the other gives the first, spliced, then
/// the second, spliced.
pub proof fn lemma_spliced_add(front: Seq<SqlGrammarView>, back: Seq<SqlGrammarView>)
    ensures
        spliced(front + back) == spliced(front) + spliced(back),
    decreases back.len(),
{
    if back.len() == 0 {
        lemma_spliced_empty();
        assert(back =~= Seq::<SqlGrammarView>::empty());
        assert(front + back =~= front);
        assert(spliced(front) + spliced(back) =~= spliced(front));
    } else {
        let last = back.last();
        lemma_spliced_add(front, back.drop_last());
        lemma_spliced_push(front + back.drop_last(), last);
        lemma_spliced_push(back.drop_last(), last);
        assert((front + back.drop_last()).push(last) =~= front + back);
        assert(back.drop_last().push(last) =~= back);
        assert(spliced(front + back) =~= spliced(front) + spliced(back));
    }
}

/// An identifier node among the nodes is still among them after
/// splicing, so that its name is one of the names.
pub proof fn lemma_spliced_keeps_ident(nodes: Seq<SqlGrammarView>, i: int)
    requires
        0 <= i < nodes.len(),
        nodes[i] is IdExpr,
    ensures
        idents(spliced(nodes)).len() >= 1,
    decreases nodes.len(),
{
    let front = nodes.drop_last();
    let last = nodes.last();
    assert(front.push(last) =~= nodes);
    lemma_spliced_push(front, last);
    lemma_idents_add(spliced(front), last.children());
    if i == nodes.len() - 1 {
        lemma_idents_push(Seq::<SqlGrammarView>::empty(), last);
        assert(Seq::<SqlGrammarView>::empty().push(last) =~= last.children());
    } else {
        assert(front[i] == nodes[i]);
        lemma_spliced_keeps_ident(front, i);
    }
}

/// Splicing flat nodes leaves no sequence among them.
pub proof fn lemma_spliced_flat(nodes: Seq<SqlGrammarView>)
    requires
        forall|i: int| 0 <= i < nodes.len() ==> (#[trigger] nodes[i]).flat(),
    ensures
        forall|i: int| 0 <= i < spliced(nodes).len() ==> !((#[trigger] spliced(nodes)[i]) is Vec),
    decreases nodes.len(),
{
    if nodes.len() == 0 {
        lemma_spliced_empty();
        assert(nodes =~= Seq::<SqlGrammarView>::empty());
    } else {
        let front = nodes.drop_last();
        let last = nodes.last();
        assert(front.push(last) =~= nodes);
        lemma_spliced_push(front, last);
        assert forall|i: int| 0 <= i < front.len() implies (#[trigger] front[i]).flat() by {
            assert(front[i] == nodes[i]);
        }
        lemma_spliced_flat(front);
        assert(last.flat());
        assert forall|i: int| 0 <= i < spliced(nodes).len() implies !((#[trigger] spliced(
            nodes,
        )[i]) is Vec) by {
            if i < spliced(front).len() {
                assert(spliced(nodes)[i] == spliced(front)[i]);
            } else {
                assert(spliced(nodes)[i] == last.children()[i - spliced(front).len()]);
            }
        }
    }
}

/// Splicing nodes that lie in order, each with its own nodes in order
/// inside it, gives nodes that lie in order.
pub proof fn lemma_spliced_in_order(nodes: Seq<SqlGrammarView>, lo: int, hi: int)
    requires
        in_order(nodes, lo, hi),
        forall|i: int| 0 <= i < nodes.len() ==> (#[trigger] nodes[i]).well_spanned(),
    ensures
        in_order(spliced(nodes), lo, hi),
    decreases nodes.len(),
{
    if nodes.len() == 0 {
        lemma_spliced_empty();
        assert(nodes =~= Seq::<SqlGrammarView>::empty());
    } else {
        let front = nodes.drop_last();
        let last = nodes.last();
        assert(front.push(last) =~= nodes);
        lemma_spliced_push(front, last);
        assert(nodes[nodes.len() - 1] == last);
        assert(last.well_spanned());
        assert forall|i: int| 0 <= i < front.len() implies (#[trigger] front[i]).well_spanned()
            && lo <= front[i].start() <= front[i].end() <= last.start() by {
            assert(front[i] == nodes[i]);
        }
        assert forall|i: int, j: int| 0 <= i < j < front.len() implies (#[trigger] front[i]).end()
            <= (#[trigger] front[j]).start() by {
            assert(front[i] == nodes[i] && front[j] == nodes[j]);
        }
        lemma_spliced_in_order(front, lo, last.start());
        let before = spliced(front);
        let inside = last.children();
        let all = spliced(nodes);
        assert forall|i: int| 0 <= i < all.len() implies lo <= (#[trigger] all[i]).start()
            <= all[i].end() <= hi by {
            if i < before.len() {
                assert(all[i] == before[i]);
            } else {
                assert(all[i] == inside[i - before.len()]);
            }
        }
        assert forall|i: int, j: int| 0 <= i < j < all.len() implies (#[trigger] all[i]).end() <= (
        #[trigger] all[j]).start() by {
            if j < before.len() {
                assert(all[i] == before[i] && all[j] == before[j]);
            } else if i < before.len() {
                assert(all[i] == before[i]);
                assert(all[j] == inside[j - before.len()]);
            } else {
                assert(all[i] == inside[i - before.len()]);
                assert(all[j] == inside[j - before.len()]);
            }
        }
    }
}

/// Nodes of which none is a sequence stay as they are when spliced.
pub proof fn lemma_spliced_plain(nodes: Seq<SqlGrammarView>)
    requires
        forall|i: int| 0 <= i < nodes.len() ==> !((#[trigger] nodes[i]) is Vec),
    ensures
        spliced(nodes) == nodes,
    decreases nodes.len(),
{
    if nodes.len() == 0 {
        lemma_spliced_empty();
        assert(nodes =~= Seq::<SqlGrammarView>::empty());
    } else {
        let front = nodes.drop_last();
        let last = nodes.last();
        assert(front.push(last) =~= nodes);
        lemma_spliced_push(front, last);
        lemma_spliced_plain(front);
        assert(front + last.children() =~= nodes);
    }
}

/// Where every node is an identifier, every node gives a name.
pub proof fn lemma_idents_of_idents(nodes: Seq<SqlGrammarView>)
    requires
        forall|i: int| 0 <= i < nodes.len() ==> (#[trigger] nodes[i]) is IdExpr,
    ensures
        idents(nodes).len() == nodes.len(),
    decreases nodes.len(),
{
    if nodes.len() > 0 {
        let front = nodes.drop_last();
        let last = nodes.last();
        assert(front.push(last) =~= nodes);
        lemma_idents_push(front, last);
        lemma_idents_of_idents(front);
    }
}

impl SqlGrammar {
    /// The offset at which the node begins.
    pub fn start(&self) -> (r: usize)
        ensures
            r == self@.start(),
    {
        match self {
            SqlGrammar::Letter(start, _, _) => *start,
            SqlGrammar::Vec(start, _, _) => *start,
            SqlGrammar::CreateTableStmt(start, _, _) => *start,
            SqlGrammar::ColumnClause(start, _, _) => *start,
            SqlGrammar::IdExpr(start, _, _) => *start,
        }
    }

    /// The offset at which the node ends.
    pub fn end(&self) -> (r: usize)
        ensures
            r == self@.end(),
    {
        match self {
            SqlGrammar::Letter(_, end, _) => *end,
            SqlGrammar::Vec(_, end, _) => *end,
            SqlGrammar::CreateTableStmt(_, end, _) => *end,
            SqlGrammar::ColumnClause(_, end, _) => *end,
            SqlGrammar::IdExpr(_, end, _) => *end,
        }
    }

    /// Whether the node is of the given kind.
    pub fn is(&self, id: &GrammarId) -> (r: bool)
        ensures
            r == (self@.id() == *id),
    {
        match (self, id) {
            (SqlGrammar::Letter(_, _, _), GrammarId::Letter) => true,
            (SqlGrammar::Vec(_, _, _), GrammarId::Vec) => true,
            (SqlGrammar::CreateTableStmt(_, _, _), GrammarId::CreateTableStmt) => true,
            (SqlGrammar::ColumnClause(_, _, _), GrammarId::ColumnClause) => true,
            (SqlGrammar::IdExpr(_, _, _), GrammarId::IdExpr) => true,
            _ => false,
        }
    }

    /// Copies of the nodes that a rule reads: those of a sequence, or the
    /// node itself where it is no sequence.
    pub fn collect(&self) -> (r: Vec<SqlGrammar>)
        ensures
            r.deep_view() == self@.children(),
    {
        match self {
            SqlGrammar::Vec(_, _, nodes) => {
                let r = Self::clone_all(nodes);
                assert(r.deep_view() =~= self@.children());
                r
            },
            _ => {
                let mut r: Vec<SqlGrammar> = Vec::new();
                r.push(self.clone());
                assert(r.deep_view() =~= self@.children());
                r
            },
        }
    }

    /// Copies of the nodes of `nodes`, in order.
    fn clone_all(nodes: &Vec<SqlGrammar>) -> (r: Vec<SqlGrammar>)
        ensures
            r.deep_view() == nodes.deep_view(),
        decreases nodes,
    {
        let mut r: Vec<SqlGrammar> = Vec::new();
        let mut i: usize = 0;
        while i < nodes.len()
            invariant
                i <= nodes.len(),
                r.len() == i,
                forall|j: int| 0 <= j < i ==> r[j]@ == nodes[j]@,
            decreases nodes.len() - i,
        {
            r.push(nodes[i].clone());
            i += 1;
        }
        assert(r.deep_view() =~= nodes.deep_view());
        r
    }
}

impl Clone for SqlGrammar {
    fn clone(&self) -> (r: Self)
        ensures
            r@ == self@,
        decreases self,
    {
        match self {
            SqlGrammar::Letter(start, end, token) => SqlGrammar::Letter(
                *start,
                *end,
                token.clone(),
            ),
            SqlGrammar::Vec(start, end, nodes) => {
                let copies = SqlGrammar::clone_all(nodes);
                proof {
                    lemma_sequence_view(*start, *end, copies);
                    lemma_sequence_view(*start, *end, *nodes);
                }
                SqlGrammar::Vec(*start, *end, copies)
            },
            SqlGrammar::CreateTableStmt(start, end, stmt) => SqlGrammar::CreateTableStmt(
                *start,
                *end,
                stmt.clone(),
            ),
            SqlGrammar::ColumnClause(start, end, column) => SqlGrammar::ColumnClause(
                *start,
                *end,
                column.clone(),
            ),
            SqlGrammar::IdExpr(start, end, name) => SqlGrammar::IdExpr(*start, *end, name.clone()),
        }
    }
}

/// The range of character offsets that a node covers.
impl From<SqlGrammar> for Range<usize> {
    fn from(value: SqlGrammar) -> (r: Self)
        ensures
            r.start == value@.start(),
            r.end == value@.end(),
    {
        match value {
            SqlGrammar::Letter(start, end, _) => start..end,
            SqlGrammar::Vec(start, end, _) => start..end,
            SqlGrammar::CreateTableStmt(start, end, _) => start..end,
            SqlGrammar::ColumnClause(start, end, _) => start..end,
            SqlGrammar::IdExpr(start, end, _) => start..end,
        }
    }
}

impl FromSpecImpl<SqlGrammar> for Range<usize> {
    open spec fn obeys_from_spec() -> bool {
        true
    }

    open spec fn from_spec(value: SqlGrammar) -> Self {
        Range { start: value@.start() as usize, end: value@.end() as usize }
    }
}

/// The node that a token becomes where a rule takes it up.
impl From<SqlLetter> for SqlGrammar {
    fn from(value: SqlLetter) -> (r: Self)
        ensures
            r@ == promoted(value@),
    {
        let start = value.start();
        let end = value.end();
        match value {
            SqlLetter::Id(_, _, text) => SqlGrammar::IdExpr(start, end, IdExpr { value: text }),
            other => SqlGrammar::Letter(start, end, other),
        }
    }
}

/// A node holds strings, which are known by their characters only, so
/// the conversion is stated over the node's view, on `from` itself.
impl FromSpecImpl<SqlLetter> for SqlGrammar {
    open spec fn obeys_from_spec() -> bool {
        false
    }

    open spec fn from_spec(value: SqlLetter) -> Self {
        arbitrary()
    }
}

/// The identifier that an identifier node holds.
impl From<SqlGrammar> for Option<IdExpr> {
    fn from(grammar: SqlGrammar) -> (r: Self)
        ensures
            r.deep_view() == grammar@.ident(),
    {
        match grammar {
            SqlGrammar::IdExpr(_, _, value) => Some(value),
            _ => None,
        }
    }
}

impl FromSpecImpl<SqlGrammar> for Option<IdExpr> {
    open spec fn obeys_from_spec() -> bool {
        false
    }

    open spec fn from_spec(grammar: SqlGrammar) -> Self {
        arbitrary()
    }
}

/// The column that a column clause node holds.
impl From<SqlGrammar> for Option<ColumnClause> {
    fn from(grammar: SqlGrammar) -> (r: Self)
        ensures
            r.deep_view() == grammar@.column(),
    {
        match grammar {
            SqlGrammar::ColumnClause(_, _, value) => Some(value),
            _ => None,
        }
    }
}

impl FromSpecImpl<SqlGrammar> for Option<ColumnClause> {
    open spec fn obeys_from_spec() -> bool {
        false
    }

    open spec fn from_spec(grammar: SqlGrammar) -> Self {
        arbitrary()
    }
}

/// The kind of a node.
impl From<SqlGrammar> for GrammarId {
    fn from(value: SqlGrammar) -> (r: Self)
        ensures
            r == value@.id(),
    {
        match value {
            SqlGrammar::Letter(_, _, _) => GrammarId::Letter,
            SqlGrammar::Vec(_, _, _) => GrammarId::Vec,
            SqlGrammar::CreateTableStmt(_, _, _) => GrammarId::CreateTableStmt,
            SqlGrammar::ColumnClause(_, _, _) => GrammarId::ColumnClause,
            SqlGrammar::IdExpr(_, _, _) => GrammarId::IdExpr,
        }
    }
}

impl FromSpecImpl<SqlGrammar> for GrammarId {
    open spec fn obeys_from_spec() -> bool {
        true
    }

    open spec fn from_spec(value: SqlGrammar) -> Self {
        value@.id()
    }
}

impl SqlGrammar {
    /// Makes of `value` the node of kind `id`: what matching the
    /// definition of a rule produced becomes the rule's own node.
    pub fn reduce(id: GrammarId, value: SqlGrammar) -> (r: SqlGrammar)
        requires
            reducible(id, value@),
        ensures
            r@ == reduced(id, value@),
    {
        match id {
            GrammarId::Letter => value,
            GrammarId::Vec => Self::splice(value),
            GrammarId::CreateTableStmt => Self::table(&value),
            GrammarId::ColumnClause => Self::column(&value),
            GrammarId::IdExpr => match value {
                SqlGrammar::Letter(_, _, letter) => SqlGrammar::from(letter),
                other => other,
            },
        }
    }

    /// The sequence that holds the nodes of `value`, with the nodes of
    /// each sequence among them in the place of that sequence.
    fn splice(value: SqlGrammar) -> (r: SqlGrammar)
        ensures
            r@ == reduced(GrammarId::Vec, value@),
    {
        let mut nodes: Vec<SqlGrammar> = Vec::new();
        match value {
            SqlGrammar::Vec(start, end, inner) => {
                let ghost all = inner@;
                proof {
                    lemma_sequence_view(start, end, inner);
                    lemma_spliced_empty();
                    assert(views(all.take(0)) =~= Seq::<SqlGrammarView>::empty());
                    assert(views(all) =~= inner.deep_view());
                }
                for node in it: inner
                    invariant
                        it.seq() == all,
                        nodes.deep_view() == spliced(views(all.take(it.index() as int))),
                {
                    proof {
                        lemma_spliced_push(views(all.take(it.index() as int)), node@);
                        assert(views(all.take(it.index() as int)).push(node@) =~= views(
                            all.take(it.index() + 1),
                        ));
                    }
                    let ghost before = nodes.deep_view();
                    match node {
                        SqlGrammar::Vec(s, e, mut children) => {
                            proof {
                                lemma_sequence_view(s, e, children);
                            }
                            let ghost inside = children.deep_view();
                            nodes.append(&mut children);
                            assert(nodes.deep_view() =~= before + inside);
                        },
                        other => {
                            let ghost one = other@;
                            nodes.push(other);
                            assert(nodes.deep_view() =~= before + seq![one]);
                        },
                    }
                }
                proof {
                    assert(all.take(all.len() as int) =~= all);
                    lemma_sequence_view(start, end, nodes);
                }
                SqlGrammar::Vec(start, end, nodes)
            },
            other => {
                let start = other.start();
                let end = other.end();
                let ghost one = other@;
                proof {
                    lemma_spliced_empty();
                    lemma_spliced_push(Seq::<SqlGrammarView>::empty(), one);
                    assert(Seq::<SqlGrammarView>::empty().push(one) =~= seq![one]);
                }
                nodes.push(other);
                proof {
                    lemma_sequence_view(start, end, nodes);
                    assert(nodes.deep_view() =~= seq![one]);
                }
                SqlGrammar::Vec(start, end, nodes)
            },
        }
    }

    /// The table that the nodes of `value` describe.
    fn table(value: &SqlGrammar) -> (r: SqlGrammar)
        requires
            reducible(GrammarId::CreateTableStmt, value@),
        ensures
            r@ == reduced(GrammarId::CreateTableStmt, value@),
    {
        let nodes = value.collect();
        let ghost all = nodes.deep_view();
        let mut name: Option<IdExpr> = None;
        let mut found: Vec<ColumnClause> = Vec::new();
        let mut i: usize = 0;
        assert(all.take(0) =~= Seq::<SqlGrammarView>::empty());
        while i < nodes.len()
            invariant
                i <= nodes.len(),
                all == nodes.deep_view(),
                found.deep_view() == columns(all.take(i as int)),
                match name {
                    Some(first) => idents(all.take(i as int)).len() >= 1 && first@ == idents(
                        all.take(i as int),
                    )[0],
                    None => idents(all.take(i as int)).len() == 0,
                },
            decreases nodes.len() - i,
        {
            proof {
                lemma_idents_push(all.take(i as int), all[i as int]);
                lemma_columns_push(all.take(i as int), all[i as int]);
                assert(all.take(i as int).push(all[i as int]) =~= all.take(i + 1));
            }
            let ghost before = found.deep_view();
            match &nodes[i] {
                SqlGrammar::ColumnClause(_, _, column) => {
                    found.push(column.clone());
                    assert(found.deep_view() =~= before.push(column@));
                },
                SqlGrammar::IdExpr(_, _, id) => {
                    if name.is_none() {
                        name = Some(id.clone());
                    }
                },
                _ => {},
            }
            i += 1;
        }
        assert(all.take(nodes.len() as int) =~= all);
        SqlGrammar::CreateTableStmt(
            value.start(),
            value.end(),
            CreateTableStmt { name: name.unwrap(), columns: found },
        )
    }

    /// The column that the nodes of `value` describe.
    fn column(value: &SqlGrammar) -> (r: SqlGrammar)
        requires
            reducible(GrammarId::ColumnClause, value@),
        ensures
            r@ == reduced(GrammarId::ColumnClause, value@),
    {
        let nodes = value.collect();
        let ghost all = nodes.deep_view();
        let mut name: Option<IdExpr> = None;
        let mut data_type: Option<IdExpr> = None;
        let mut i: usize = 0;
        assert(all.take(0) =~= Seq::<SqlGrammarView>::empty());
        while i < nodes.len()
            invariant
                i <= nodes.len(),
                all == nodes.deep_view(),
                match name {
                    Some(first) => idents(all.take(i as int)).len() >= 1 && first@ == idents(
                        all.take(i as int),
                    )[0],
                    None => idents(all.take(i as int)).len() == 0,
                },
                match data_type {
                    Some(second) => idents(all.take(i as int)).len() >= 2 && second@ == idents(
                        all.take(i as int),
                    )[1],
                    None => idents(all.take(i as int)).len() < 2,
                },
            decreases nodes.len() - i,
        {
            proof {
                lemma_idents_push(all.take(i as int), all[i as int]);
                assert(all.take(i as int).push(all[i as int]) =~= all.take(i + 1));
            }
            match &nodes[i] {
                SqlGrammar::IdExpr(_, _, id) => {
                    if name.is_none() {
                        name = Some(id.clone());
                    } else if data_type.is_none() {
                        data_type = Some(id.clone());
                    }
                },
                _ => {},
            }
            i += 1;
        }
        assert(all.take(nodes.len() as int) =~= all);
        SqlGrammar::ColumnClause(
            value.start(),
            value.end(),
            ColumnClause { name: name.unwrap(), data_type: data_type.unwrap() },
        )
    }
}

} // verus!
