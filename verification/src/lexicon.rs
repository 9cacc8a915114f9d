//! What the lexer accepts, said without the engine: the texts that the
//! tokens of each kind cover.

use crate::casefold::same_letter;
use crate::letter_id::LetterId;
use crate::letter_pattern::{one_of, spelled, LetterPatternView};
use vstd::prelude::*;

verus! {

/// Whether `c` is a letter of the Latin alphabet.
pub open spec fn is_letter(c: char) -> bool {
    'a' <= c <= 'z' || 'A' <= c <= 'Z'
}

/// Whether `c` may stand inside an identifier: a letter, a digit or an
/// underscore.
pub open spec fn is_word(c: char) -> bool {
    is_letter(c) || '0' <= c <= '9' || same_letter(c, '_')
}

/// Whether `c` is white space: a space, a tab, a carriage return or a
/// newline.
pub open spec fn is_space(c: char) -> bool {
    one_of(c, seq![' ', '\t', '\r', '\n'])
}

/// Whether the pattern `p` stands for one character of a class: at
/// every offset it matches exactly when the character there is in the
/// class, and consumes that character.
pub open spec fn is_class(p: LetterPatternView, class: spec_fn(char) -> bool) -> bool {
    forall|s: Seq<char>, n: int|
        0 <= n ==> #[trigger] p.matches(s, n) == if n < s.len() && class(s[n]) {
            Some(n + 1)
        } else {
            None::<int>
        }
}

/// Whether the characters of `s` from offset `from` up to offset `to` are
/// a run of the class that cannot be made longer: all of them are in the
/// class, and the character at `to`, if there is one, is not.
pub open spec fn is_run(s: Seq<char>, class: spec_fn(char) -> bool, from: int, to: int) -> bool {
    &&& from <= to <= s.len()
    &&& forall|k: int| from <= k < to ==> class(#[trigger] s[k])
    &&& to < s.len() ==> !class(s[to])
}

/// Greedy repetition of one character of a class takes the longest run
/// of the class.
pub proof fn lemma_repeat_class(
    p: LetterPatternView,
    class: spec_fn(char) -> bool,
    s: Seq<char>,
    n: int,
)
    requires
        is_class(p, class),
        0 <= n <= s.len(),
    ensures
        is_run(s, class, n, p.repeat(s, n)),
    decreases s.len() - n,
{
    assert(p.matches(s, n) == if n < s.len() && class(s[n]) {
        Some(n + 1)
    } else {
        None::<int>
    });
    if n < s.len() && class(s[n]) {
        lemma_repeat_class(p, class, s, n + 1);
    }
}

/// The pattern of the first character of an identifier stands for a
/// letter, that of the others for a letter, a digit or an underscore, and
/// that of white space for one character of white space.
pub proof fn lemma_classes()
    ensures
        is_class(LetterId::Id.pattern()->And_0[0], |c: char| is_letter(c)),
        is_class(*LetterId::Id.pattern()->And_0[1]->Any_0, |c: char| is_word(c)),
        is_class(*LetterId::Skip.pattern()->More_0, |c: char| is_space(c)),
{
    let head = LetterId::Id.pattern()->And_0[0];
    let tail = *LetterId::Id.pattern()->And_0[1]->Any_0;
    let space = *LetterId::Skip.pattern()->More_0;
    assert forall|s: Seq<char>, n: int| 0 <= n implies #[trigger] head.matches(s, n) == if n
        < s.len() && is_letter(s[n]) {
        Some(n + 1)
    } else {
        None::<int>
    } by {
        let ps = head->Or_0;
        let after1 = ps.drop_first();
        let after2 = after1.drop_first();
        assert(head == LetterPatternView::Or(ps));
        assert(ps.len() == 2);
        assert(ps[0] == LetterPatternView::Range('a', 'z'));
        assert(ps[1] == LetterPatternView::Range('A', 'Z'));
        assert(after1[0] == ps[1]);
        assert(after2.len() == 0);
        assert(head.matches(s, n) == LetterPatternView::match_first(ps, s, n));
        assert(LetterPatternView::match_first(after2, s, n) is None);
        assert(LetterPatternView::match_first(after1, s, n) == after1[0].matches(s, n));
        assert(LetterPatternView::match_first(ps, s, n) == match ps[0].matches(s, n) {
            Some(e) => Some(e),
            None => after1[0].matches(s, n),
        });
    }
    assert forall|s: Seq<char>, n: int| 0 <= n implies #[trigger] tail.matches(s, n) == if n
        < s.len() && is_word(s[n]) {
        Some(n + 1)
    } else {
        None::<int>
    } by {
        let ps = tail->Or_0;
        let after1 = ps.drop_first();
        let after2 = after1.drop_first();
        let after3 = after2.drop_first();
        let after4 = after3.drop_first();
        assert(tail == LetterPatternView::Or(ps));
        assert(ps.len() == 4);
        assert(after1[0] == ps[1]);
        assert(after2[0] == ps[2]);
        assert(after3[0] == ps[3]);
        assert(after4.len() == 0);
        assert(LetterPatternView::match_first(after4, s, n) is None);
        assert(LetterPatternView::match_first(after3, s, n) == after3[0].matches(s, n));
        assert(LetterPatternView::match_first(after2, s, n) == match after2[0].matches(s, n) {
            Some(e) => Some(e),
            None => LetterPatternView::match_first(after3, s, n),
        });
        assert(LetterPatternView::match_first(after1, s, n) == match after1[0].matches(s, n) {
            Some(e) => Some(e),
            None => LetterPatternView::match_first(after2, s, n),
        });
        assert(LetterPatternView::match_first(ps, s, n) == match ps[0].matches(s, n) {
            Some(e) => Some(e),
            None => LetterPatternView::match_first(after1, s, n),
        });
    }
    assert forall|s: Seq<char>, n: int| 0 <= n implies #[trigger] space.matches(s, n) == if n
        < s.len() && is_space(s[n]) {
        Some(n + 1)
    } else {
        None::<int>
    } by {}
}

/// A keyword token covers the keyword, spelled in letters of any case.
pub proof fn lemma_keyword(s: Seq<char>, n: int)
    ensures
        LetterId::Create.pattern().matches(s, n) == if spelled("CREATE"@, s, n) {
            Some(n + 6)
        } else {
            None
        },
        LetterId::Table.pattern().matches(s, n) == if spelled("TABLE"@, s, n) {
            Some(n + 5)
        } else {
            None
        },
{
    reveal_strlit("CREATE");
    reveal_strlit("TABLE");
}

/// A comma or a parenthesis token covers that one character.
pub proof fn lemma_punctuation(s: Seq<char>, n: int)
    ensures
        LetterId::Comma.pattern().matches(s, n) == if 0 <= n < s.len() && same_letter(s[n], ',') {
            Some(n + 1)
        } else {
            None
        },
        LetterId::ParenL.pattern().matches(s, n) == if 0 <= n < s.len() && same_letter(
            s[n],
            '(',
        ) {
            Some(n + 1)
        } else {
            None
        },
        LetterId::ParenR.pattern().matches(s, n) == if 0 <= n < s.len() && same_letter(
            s[n],
            ')',
        ) {
            Some(n + 1)
        } else {
            None
        },
{
}

/// An identifier token begins with a letter and covers the longest run of
/// letters, digits and underscores after it. No identifier begins with
/// another character.
pub proof fn lemma_identifier(s: Seq<char>, n: int)
    requires
        0 <= n,
    ensures
        match LetterId::Id.pattern().matches(s, n) {
            Some(end) => n < s.len() && is_letter(s[n]) && is_run(
                s,
                |c: char| is_word(c),
                n + 1,
                end,
            ),
            None => !(n < s.len() && is_letter(s[n])),
        },
{
    lemma_classes();
    let ps = LetterId::Id.pattern()->And_0;
    let head = ps[0];
    let tail = *ps[1]->Any_0;
    assert(head.matches(s, n) == if n < s.len() && is_letter(s[n]) {
        Some(n + 1)
    } else {
        None::<int>
    });
    let after1 = ps.drop_first();
    let after2 = after1.drop_first();
    assert(after1[0] == ps[1]);
    assert(after2.len() == 0);
    assert(LetterId::Id.pattern().matches(s, n) == LetterPatternView::match_all(ps, s, n));
    assert(LetterPatternView::match_all(ps, s, n) == match head.matches(s, n) {
        Some(e) => LetterPatternView::match_all(after1, s, e),
        None => None,
    });
    if n < s.len() && is_letter(s[n]) {
        lemma_repeat_class(tail, |c: char| is_word(c), s, n + 1);
        assert(ps[1].matches(s, n + 1) == Some(tail.repeat(s, n + 1)));
        assert(LetterPatternView::match_all(after2, s, tail.repeat(s, n + 1)) == Some(
            tail.repeat(s, n + 1),
        ));
        assert(LetterPatternView::match_all(after1, s, n + 1) == Some(tail.repeat(s, n + 1)));
    }
}

/// A white space token covers the longest run of white space. No white
/// space token begins with another character.
pub proof fn lemma_white_space(s: Seq<char>, n: int)
    requires
        0 <= n,
    ensures
        match LetterId::Skip.pattern().matches(s, n) {
            Some(end) => n < end && is_run(s, |c: char| is_space(c), n, end),
            None => !(n < s.len() && is_space(s[n])),
        },
{
    lemma_classes();
    let space = *LetterId::Skip.pattern()->More_0;
    assert(space.matches(s, n) == if n < s.len() && is_space(s[n]) {
        Some(n + 1)
    } else {
        None::<int>
    });
    if n < s.len() && is_space(s[n]) {
        lemma_repeat_class(space, |c: char| is_space(c), s, n + 1);
    }
}

} // verus!
