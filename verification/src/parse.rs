//! From a text to its tokens, and from the tokens to the statement.

use crate::err::{SqlErr, SqlErrView};
use crate::grammar::{SqlGrammar, SqlGrammarView};
use crate::grammar_id::{node_or_error, GrammarId};
use crate::letter::{SqlLetter, SqlLetterView};
use crate::letter_id::LetterId;
use crate::statement::{lemma_parsed_text, pairs, spells_table, table_of};
use vstd::prelude::*;
use vstd::string::StrSliceExecFns;

verus! {

/// The token that the first kind of `ids` with a match at offset `n` of
/// `s` gives there. The order of `ids` decides between kinds that both
/// match.
pub open spec fn first_token(ids: Seq<LetterId>, s: Seq<char>, n: int) -> Option<SqlLetterView>
    decreases ids.len(),
{
    if ids.len() == 0 {
        None
    } else {
        match ids[0].scan(s, n) {
            Some(token) => Some(token),
            None => first_token(ids.drop_first(), s, n),
        }
    }
}

/// The token that starts at offset `n` of `s`.
pub open spec fn token_at(s: Seq<char>, n: int) -> Option<SqlLetterView> {
    first_token(LetterId::priority(), s, n)
}

/// The tokens of `s` from offset `n` on, each starting where the one
/// before it ended, or a syntax error at the first offset at which no
/// token starts. A token covers at least one character and ends inside
/// the text (`lemma_token_at`), so that the tokens come to an end.
pub open spec fn tokens_from(s: Seq<char>, n: int) -> Result<Seq<SqlLetterView>, SqlErrView>
    decreases s.len() - n,
{
    if n >= s.len() {
        Ok(Seq::empty())
    } else {
        match token_at(s, n) {
            Some(token) => if n < token.end <= s.len() {
                match tokens_from(s, token.end) {
                    Ok(rest) => Ok(seq![token] + rest),
                    Err(err) => Err(err),
                }
            } else {
                Err(SqlErrView::Syntax(n))
            },
            None => Err(SqlErrView::Syntax(n)),
        }
    }
}

/// The tokens of `s`, white space among them.
pub open spec fn tokens(s: Seq<char>) -> Result<Seq<SqlLetterView>, SqlErrView> {
    tokens_from(s, 0)
}

/// The tokens that the grammar reads: all but white space.
pub open spec fn significant(ts: Seq<SqlLetterView>) -> Seq<SqlLetterView> {
    ts.filter(|token: SqlLetterView| token.id != LetterId::Skip)
}

/// What the text `s` stands for: the statement that its tokens spell, or
/// the first error.
pub open spec fn parsed(s: Seq<char>) -> Result<SqlGrammarView, SqlErrView> {
    match tokens(s) {
        Ok(ts) => GrammarId::CreateTableStmt.parsed(significant(ts)),
        Err(err) => Err(err),
    }
}

/// Among the kinds of `ids`, the first that matches gives the token,
/// whatever the kinds after it would match; where none matches, there is
/// no token.
pub proof fn lemma_first_token(ids: Seq<LetterId>, s: Seq<char>, n: int)
    ensures
        first_token(ids, s, n) is None <==> forall|i: int|
            0 <= i < ids.len() ==> (#[trigger] ids[i]).scan(s, n) is None,
        forall|k: int|
            0 <= k < ids.len() && (#[trigger] ids[k]).scan(s, n) is Some && (forall|i: int|
                0 <= i < k ==> (#[trigger] ids[i]).scan(s, n) is None) ==> first_token(ids, s, n)
                == ids[k].scan(s, n),
    decreases ids.len(),
{
    if ids.len() > 0 {
        let rest = ids.drop_first();
        lemma_first_token(rest, s, n);
        assert forall|i: int| 0 <= i < rest.len() implies rest[i] == ids[i + 1] by {}
        if ids[0].scan(s, n) is None {
            assert forall|k: int|
                0 <= k < ids.len() && (#[trigger] ids[k]).scan(s, n) is Some && (forall|i: int|
                    0 <= i < k ==> (#[trigger] ids[i]).scan(s, n) is None) implies first_token(
                ids,
                s,
                n,
            ) == ids[k].scan(s, n) by {
                assert(rest[k - 1] == ids[k]);
                assert forall|i: int| 0 <= i < k - 1 implies (#[trigger] rest[i]).scan(
                    s,
                    n,
                ) is None by {
                    assert(rest[i] == ids[i + 1]);
                }
            }
            if first_token(ids, s, n) is None {
                assert forall|i: int| 0 <= i < ids.len() implies (#[trigger] ids[i]).scan(
                    s,
                    n,
                ) is None by {
                    if i > 0 {
                        assert(rest[i - 1] == ids[i]);
                    }
                }
            }
        }
    }
}

/// A token that starts at `n` covers at least one character from `n` on,
/// lies inside the text, and holds the text that it covers.
pub proof fn lemma_token_at(s: Seq<char>, n: int)
    requires
        0 <= n,
    ensures
        token_at(s, n) matches Some(t) ==> {
            &&& t.start == n
            &&& n < t.end <= s.len()
            &&& t.text == s.subrange(t.start, t.end)
        },
{
    lemma_first_token_scanned(LetterId::priority(), s, n);
}

/// The token that a list of kinds gives is one that a kind of the list
/// scanned.
pub proof fn lemma_first_token_scanned(ids: Seq<LetterId>, s: Seq<char>, n: int)
    requires
        0 <= n,
    ensures
        first_token(ids, s, n) matches Some(t) ==> {
            &&& t.start == n
            &&& n < t.end <= s.len()
            &&& t.text == s.subrange(t.start, t.end)
        },
    decreases ids.len(),
{
    if ids.len() > 0 {
        ids[0].lemma_scan_token(s, n);
        lemma_first_token_scanned(ids.drop_first(), s, n);
    }
}

/// Whether the tokens `ts` cover `s` from offset `n` to its end: each
/// covers at least one character and holds the text that it covers, the
/// first starts at `n`, each of the others starts where the one before
/// it ends, and the last ends with the text.
pub open spec fn tiles(ts: Seq<SqlLetterView>, s: Seq<char>, n: int) -> bool {
    &&& forall|i: int|
        0 <= i < ts.len() ==> {
            &&& (#[trigger] ts[i]).start < ts[i].end <= s.len()
            &&& ts[i].text == s.subrange(ts[i].start, ts[i].end)
        }
    &&& forall|i: int, j: int|
        0 <= i && j == i + 1 && j < ts.len() ==> (#[trigger] ts[i]).end == (#[trigger] ts[j]).start
    &&& if ts.len() == 0 {
        n >= s.len()
    } else {
        ts[0].start == n && ts.last().end == s.len()
    }
}

/// The tokens of a text cover it without gap or overlap. Where no token
/// starts at some offset, the error names the first such offset, and every
/// offset before it from which a token was read lies inside the text.
pub proof fn lemma_tokens_tile(s: Seq<char>, n: int)
    requires
        0 <= n,
    ensures
        match tokens_from(s, n) {
            Ok(ts) => tiles(ts, s, n),
            Err(err) => err matches SqlErrView::Syntax(k) && n <= k < s.len() && token_at(s, k)
                is None,
        },
    decreases s.len() - n,
{
    if n < s.len() {
        lemma_token_at(s, n);
        match token_at(s, n) {
            Some(token) => {
                lemma_tokens_tile(s, token.end);
                match tokens_from(s, token.end) {
                    Ok(rest) => {
                        let ts = seq![token] + rest;
                        assert forall|i: int| 0 <= i < ts.len() implies {
                            &&& (#[trigger] ts[i]).start < ts[i].end <= s.len()
                            &&& ts[i].text == s.subrange(ts[i].start, ts[i].end)
                        } by {
                            if i > 0 {
                                assert(ts[i] == rest[i - 1]);
                            }
                        }
                        assert forall|i: int, j: int|
                            0 <= i && j == i + 1 && j < ts.len() implies (#[trigger] ts[i]).end == (
                        #[trigger] ts[j]).start by {
                            assert(ts[j] == rest[i]);
                            if i > 0 {
                                assert(ts[i] == rest[i - 1]);
                            }
                        }
                        if rest.len() > 0 {
                            assert(ts.last() == rest.last());
                        }
                    },
                    Err(_) => {},
                }
            },
            None => {},
        }
    }
}

/// The tokens found so far, then what the rest of the text gives.
pub open spec fn then_tokens(
    found: Seq<SqlLetterView>,
    rest: Result<Seq<SqlLetterView>, SqlErrView>,
) -> Result<Seq<SqlLetterView>, SqlErrView> {
    match rest {
        Ok(more) => Ok(found + more),
        Err(err) => Err(err),
    }
}

/// Tokens or an error, as plain values.
pub open spec fn tokens_or_error(r: Result<Vec<SqlLetter>, SqlErr>) -> Result<
    Seq<SqlLetterView>,
    SqlErrView,
> {
    match r {
        Ok(letters) => Ok(letters.deep_view()),
        Err(err) => Err(err@),
    }
}

/// Reads the one statement that `sql` holds.
///
/// Succeeds exactly when the tokens of `sql`, white space aside, spell a
/// table, and returns that table. Where no token starts at some offset,
/// the error is a syntax error at the first such offset. Where the tokens
/// spell no table, the error is that of the first pattern of the grammar
/// that found no match, or a syntax error where tokens are left over.
pub fn parse(sql: &str) -> (r: Result<SqlGrammar, SqlErr>)
    ensures
        node_or_error(r) == parsed(sql@),
        match r {
            Ok(node) => {
                &&& tokens(sql@) matches Ok(all)
                &&& spells_table(significant(all), pairs(significant(all), 4))
                &&& node@ == table_of(significant(all), pairs(significant(all), 4))
                &&& node@.start() == 0
                &&& 0 < node@.end() <= sql@.len()
            },
            Err(_) => tokens(sql@) matches Ok(all) ==> forall|more: int|
                !spells_table(significant(all), more),
        },
{
    proof {
        lemma_parsed_text(sql@);
    }
    match parse_letters(sql) {
        Ok(letters) => {
            let ghost all = letters.deep_view();
            let mut kept: Vec<SqlLetter> = Vec::new();
            let mut i: usize = 0;
            proof {
                reveal(Seq::filter);
                assert(all.take(0) =~= Seq::<SqlLetterView>::empty());
            }
            while i < letters.len()
                invariant
                    i <= letters.len(),
                    all == letters.deep_view(),
                    kept.deep_view() == significant(all.take(i as int)),
                decreases letters.len() - i,
            {
                let ghost before = kept.deep_view();
                proof {
                    reveal(Seq::filter);
                    assert(all.take(i + 1).drop_last() =~= all.take(i as int));
                }
                if !letters[i].is(&LetterId::Skip) {
                    kept.push(letters[i].clone());
                    assert(kept.deep_view() =~= before.push(all[i as int]));
                }
                i += 1;
            }
            assert(all.take(letters.len() as int) =~= all);
            GrammarId::CreateTableStmt.matches(&kept)
        },
        Err(err) => Err(err),
    }
}

/// The token that starts at the character offset `n` of `sql`: that of
/// the first kind, in the order of `LetterId::all`, whose pattern matches
/// there.
pub fn parse_letter(sql: &str, n: usize) -> (r: Option<SqlLetter>)
    ensures
        r.deep_view() == token_at(sql@, n as int),
        r matches Some(letter) ==> {
            &&& letter@.start == n
            &&& n < letter@.end <= sql@.len()
            &&& letter@.text == sql@.subrange(n as int, letter@.end)
        },
{
    proof {
        lemma_token_at(sql@, n as int);
    }
    let ids = LetterId::all();
    let mut k: usize = 0;
    assert(ids@.skip(0) =~= ids@);
    while k < ids.len()
        invariant
            k <= ids.len(),
            ids@ == LetterId::priority(),
            token_at(sql@, n as int) == first_token(ids@.skip(k as int), sql@, n as int),
        decreases ids.len() - k,
    {
        assert(ids@.skip(k as int).drop_first() =~= ids@.skip(k + 1));
        if let Some(letter) = ids[k].matches(sql, n) {
            return Some(letter);
        }
        k += 1;
    }
    None
}

/// The tokens of `sql` in order, white space among them.
pub fn parse_letters(sql: &str) -> (r: Result<Vec<SqlLetter>, SqlErr>)
    ensures
        tokens_or_error(r) == tokens(sql@),
        match r {
            Ok(letters) => tiles(letters.deep_view(), sql@, 0),
            Err(err) => err@ matches SqlErrView::Syntax(k) && 0 <= k < sql@.len() && token_at(
                sql@,
                k,
            ) is None,
        },
{
    proof {
        lemma_tokens_tile(sql@, 0);
    }
    let len = sql.unicode_len();
    let mut letters: Vec<SqlLetter> = Vec::new();
    let mut i: usize = 0;
    proof {
        assert(letters.deep_view() =~= Seq::<SqlLetterView>::empty());
        if let Ok(all) = tokens(sql@) {
            assert(Seq::<SqlLetterView>::empty() + all =~= all);
        }
    }
    while i < len
        invariant
            len == sql@.len(),
            tokens(sql@) == then_tokens(letters.deep_view(), tokens_from(sql@, i as int)),
        decreases len - i,
    {
        let ghost found = letters.deep_view();
        proof {
            lemma_token_at(sql@, i as int);
        }
        match parse_letter(sql, i) {
            Some(letter) => {
                proof {
                    if let Ok(rest) = tokens_from(sql@, letter@.end) {
                        assert(found + (seq![letter@] + rest) =~= found.push(letter@) + rest);
                    }
                }
                i = letter.end();
                letters.push(letter);
                assert(letters.deep_view() =~= found.push(letter@));
            },
            None => {
                return Err(SqlErr::Syntax(i));
            },
        }
    }
    assert(letters.deep_view() + Seq::<SqlLetterView>::empty() =~= letters.deep_view());
    Ok(letters)
}

} // verus!
