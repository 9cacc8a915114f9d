//! Patterns over characters: what a match is, what holds of every match,
//! and the matcher.
//!
//! Offsets count characters. A match that fails consumes nothing, whatever
//! part of the pattern had matched before it failed.

use crate::casefold::{is_same_letter, same_letter};
use crate::letter_id::LetterId;
use vstd::prelude::*;
use vstd::std_specs::convert::FromSpecImpl;
use vstd::string::StrSliceExecFns;

verus! {

/// A pattern over the characters of a text.
#[derive(Debug, PartialEq, Eq)]
pub enum LetterPattern {
    /// One character, whatever its case.
    Char(char),
    /// One character out of a set, whatever its case.
    Chars(Vec<char>),
    /// A literal string, whatever its case, matched whole or not at all.
    Str(String),
    /// One character between two bounds, both included, case observed.
    Range(char, char),
    /// The patterns one after the other.
    And(Vec<Box<LetterPattern>>),
    /// The first of the patterns that matches.
    Or(Vec<Box<LetterPattern>>),
    /// The pattern as often as it matches, possibly never.
    Any(Box<LetterPattern>),
    /// The pattern as often as it matches, at least once.
    More(Box<LetterPattern>),
}

/// A character pattern as a mathematical value.
pub enum LetterPatternView {
    Char(char),
    Chars(Seq<char>),
    Str(Seq<char>),
    Range(char, char),
    And(Seq<LetterPatternView>),
    Or(Seq<LetterPatternView>),
    Any(Box<LetterPatternView>),
    More(Box<LetterPatternView>),
}

/// Whether `c` is one of the characters of `set`, whatever its case.
pub open spec fn one_of(c: char, set: Seq<char>) -> bool {
    exists|i: int| 0 <= i < set.len() && same_letter(c, #[trigger] set[i])
}

/// Whether `s` holds the characters of `lit` from offset `n` on, whatever
/// their case. The empty string is found at every offset.
pub open spec fn spelled(lit: Seq<char>, s: Seq<char>, n: int) -> bool {
    &&& lit.len() > 0 ==> 0 <= n && n + lit.len() <= s.len()
    &&& forall|i: int| 0 <= i < lit.len() ==> same_letter(s[n + i], #[trigger] lit[i])
}

impl LetterPatternView {
    /// Where a match of the pattern that starts at offset `n` of `s` ends,
    /// or `None` where the pattern does not match there.
    ///
    /// A character, a set and a range consume the one character at `n`,
    /// if there is one and it fits. A string consumes its own length, if
    /// the text spells it from `n` on. A sequence consumes what its
    /// patterns consume one after the other, and nothing at all unless
    /// all of them match. A choice consumes what the first of its patterns
    /// that matches at `n` consumes. Zero-or-more always matches, and
    /// consumes what its pattern consumes again and again; one-or-more
    /// does so after a first match of its pattern, without which it does
    /// not match.
    pub open spec fn matches(self, s: Seq<char>, n: int) -> Option<int>
        decreases self, 0int, 0int,
    {
        match self {
            LetterPatternView::Char(p) => if 0 <= n < s.len() && same_letter(s[n], p) {
                Some(n + 1)
            } else {
                None
            },
            LetterPatternView::Chars(ps) => if 0 <= n < s.len() && one_of(s[n], ps) {
                Some(n + 1)
            } else {
                None
            },
            LetterPatternView::Str(lit) => if spelled(lit, s, n) {
                Some(n + lit.len())
            } else {
                None
            },
            LetterPatternView::Range(lo, hi) => if 0 <= n < s.len() && lo <= s[n] <= hi {
                Some(n + 1)
            } else {
                None
            },
            LetterPatternView::And(ps) => Self::match_all(ps, s, n),
            LetterPatternView::Or(ps) => Self::match_first(ps, s, n),
            LetterPatternView::Any(p) => Some(p.repeat(s, n)),
            LetterPatternView::More(p) => match p.matches(s, n) {
                Some(e) => Some(p.repeat(s, e)),
                None => None,
            },
        }
    }

    /// The patterns of `ps` in order, each from where the one before it
    /// ended: `None` as soon as one of them does not match.
    pub open spec fn match_all(ps: Seq<LetterPatternView>, s: Seq<char>, n: int) -> Option<int>
        decreases ps, 0int, 0int,
    {
        if ps.len() == 0 {
            Some(n)
        } else {
            match ps[0].matches(s, n) {
                Some(e) => Self::match_all(ps.drop_first(), s, e),
                None => None,
            }
        }
    }

    /// The first pattern of `ps` that matches at `n` decides.
    pub open spec fn match_first(ps: Seq<LetterPatternView>, s: Seq<char>, n: int) -> Option<int>
        decreases ps, 0int, 0int,
    {
        if ps.len() == 0 {
            None
        } else {
            match ps[0].matches(s, n) {
                Some(e) => Some(e),
                None => Self::match_first(ps.drop_first(), s, n),
            }
        }
    }

    /// Where greedy repetition of the pattern from `n` ends: where the
    /// pattern no longer matches, or where it matches without consuming a
    /// character, which would repeat without end.
    pub open spec fn repeat(self, s: Seq<char>, n: int) -> int
        decreases self, 1int, s.len() - n,
    {
        match self.matches(s, n) {
            Some(e) => if n < e <= s.len() {
                self.repeat(s, e)
            } else {
                n
            },
            None => n,
        }
    }

    /// Whether the shape of the pattern lets it match without consuming a
    /// character.
    pub open spec fn nullable(self) -> bool
        decreases self,
    {
        match self {
            LetterPatternView::Char(_) => false,
            LetterPatternView::Chars(_) => false,
            LetterPatternView::Str(lit) => lit.len() == 0,
            LetterPatternView::Range(_, _) => false,
            LetterPatternView::And(ps) => forall|i: int|
                0 <= i < ps.len() ==> (#[trigger] ps[i]).nullable(),
            LetterPatternView::Or(ps) => exists|i: int|
                0 <= i < ps.len() && (#[trigger] ps[i]).nullable(),
            LetterPatternView::Any(_) => true,
            LetterPatternView::More(p) => p.nullable(),
        }
    }

    /// Whether every repetition in the pattern repeats something that
    /// consumes a character each time it matches. No repetition in such a
    /// pattern is ever ended by a match that consumes nothing.
    pub open spec fn productive(self) -> bool
        decreases self,
    {
        match self {
            LetterPatternView::And(ps) => forall|i: int|
                0 <= i < ps.len() ==> (#[trigger] ps[i]).productive(),
            LetterPatternView::Or(ps) => forall|i: int|
                0 <= i < ps.len() ==> (#[trigger] ps[i]).productive(),
            LetterPatternView::Any(p) => p.productive() && !p.nullable(),
            LetterPatternView::More(p) => p.productive() && !p.nullable(),
            _ => true,
        }
    }
}

/// What a match reports: whether the pattern matched, and the offset where
/// the match ended or, where it did not match, the offset where it began.
pub open spec fn outcome(found: Option<int>, n: int) -> (bool, int) {
    match found {
        Some(e) => (true, e),
        None => (false, n),
    }
}

impl LetterPatternView {
    /// A match never ends before it began, and it ends inside the text
    /// unless it consumed nothing.
    pub proof fn lemma_match_bounds(self, s: Seq<char>, n: int)
        requires
            0 <= n,
        ensures
            self.matches(s, n) matches Some(e) ==> n <= e && (e <= s.len() || e == n),
        decreases self, 0int, 0int,
    {
        match self {
            LetterPatternView::And(ps) => Self::lemma_match_all_bounds(ps, s, n),
            LetterPatternView::Or(ps) => Self::lemma_match_first_bounds(ps, s, n),
            LetterPatternView::Any(p) => p.lemma_repeat_bounds(s, n),
            LetterPatternView::More(p) => {
                p.lemma_match_bounds(s, n);
                match p.matches(s, n) {
                    Some(e) => p.lemma_repeat_bounds(s, e),
                    None => {},
                }
            },
            _ => {},
        }
    }

    /// The same of patterns one after the other.
    pub proof fn lemma_match_all_bounds(ps: Seq<LetterPatternView>, s: Seq<char>, n: int)
        requires
            0 <= n,
        ensures
            Self::match_all(ps, s, n) matches Some(e) ==> n <= e && (e <= s.len() || e == n),
        decreases ps, 0int, 0int,
    {
        if ps.len() > 0 {
            ps[0].lemma_match_bounds(s, n);
            match ps[0].matches(s, n) {
                Some(e) => Self::lemma_match_all_bounds(ps.drop_first(), s, e),
                None => {},
            }
        }
    }

    /// The same of the first pattern that matches.
    pub proof fn lemma_match_first_bounds(ps: Seq<LetterPatternView>, s: Seq<char>, n: int)
        requires
            0 <= n,
        ensures
            Self::match_first(ps, s, n) matches Some(e) ==> n <= e && (e <= s.len() || e == n),
        decreases ps, 0int, 0int,
    {
        if ps.len() > 0 {
            ps[0].lemma_match_bounds(s, n);
            Self::lemma_match_first_bounds(ps.drop_first(), s, n);
        }
    }

    /// Greedy repetition never ends before it began, and it ends inside
    /// the text unless it consumed nothing.
    pub proof fn lemma_repeat_bounds(self, s: Seq<char>, n: int)
        requires
            0 <= n,
        ensures
            n <= self.repeat(s, n),
            self.repeat(s, n) <= s.len() || self.repeat(s, n) == n,
        decreases self, 1int, s.len() - n,
    {
        match self.matches(s, n) {
            Some(e) => if n < e <= s.len() {
                self.lemma_repeat_bounds(s, e);
            },
            None => {},
        }
    }

    /// A match of a pattern that is not nullable consumes a character.
    pub proof fn lemma_match_moves(self, s: Seq<char>, n: int)
        requires
            0 <= n,
            !self.nullable(),
        ensures
            self.matches(s, n) matches Some(e) ==> n < e <= s.len(),
        decreases self,
    {
        self.lemma_match_bounds(s, n);
        match self {
            LetterPatternView::And(ps) => {
                let i = choose|i: int| 0 <= i < ps.len() && !(#[trigger] ps[i]).nullable();
                Self::lemma_match_all_moves(ps, s, n, i);
            },
            LetterPatternView::Or(ps) => Self::lemma_match_first_moves(ps, s, n),
            LetterPatternView::More(p) => {
                p.lemma_match_moves(s, n);
                match p.matches(s, n) {
                    Some(e) => p.lemma_repeat_bounds(s, e),
                    None => {},
                }
            },
            _ => {},
        }
    }

    /// Patterns one after the other consume a character if one of them
    /// is not nullable.
    pub proof fn lemma_match_all_moves(ps: Seq<LetterPatternView>, s: Seq<char>, n: int, i: int)
        requires
            0 <= n,
            0 <= i < ps.len(),
            !ps[i].nullable(),
        ensures
            Self::match_all(ps, s, n) matches Some(e) ==> n < e,
        decreases ps,
    {
        ps[0].lemma_match_bounds(s, n);
        match ps[0].matches(s, n) {
            Some(e) => {
                Self::lemma_match_all_bounds(ps.drop_first(), s, e);
                if i == 0 {
                    ps[0].lemma_match_moves(s, n);
                } else {
                    assert(ps.drop_first()[i - 1] == ps[i]);
                    Self::lemma_match_all_moves(ps.drop_first(), s, e, i - 1);
                }
            },
            None => {},
        }
    }

    /// The first pattern that matches consumes a character if none of
    /// the patterns is nullable.
    pub proof fn lemma_match_first_moves(ps: Seq<LetterPatternView>, s: Seq<char>, n: int)
        requires
            0 <= n,
            forall|i: int| 0 <= i < ps.len() ==> !(#[trigger] ps[i]).nullable(),
        ensures
            Self::match_first(ps, s, n) matches Some(e) ==> n < e,
        decreases ps,
    {
        if ps.len() > 0 {
            ps[0].lemma_match_moves(s, n);
            assert forall|i: int| 0 <= i < ps.drop_first().len() implies !(
            #[trigger] ps.drop_first()[i]).nullable() by {
                assert(ps.drop_first()[i] == ps[i + 1]);
            }
            Self::lemma_match_first_moves(ps.drop_first(), s, n);
        }
    }

    /// Greedy repetition goes on for as long as the pattern matches. A
    /// match that consumes nothing ends it too; a pattern that is not
    /// nullable has no such match.
    pub proof fn lemma_repeat_unfolds(self, s: Seq<char>, n: int)
        requires
            0 <= n,
        ensures
            self.repeat(s, n) == match self.matches(s, n) {
                Some(e) => if e > n {
                    self.repeat(s, e)
                } else {
                    n
                },
                None => n,
            },
            !self.nullable() ==> (self.matches(s, n) matches Some(e) ==> e > n),
    {
        self.lemma_match_bounds(s, n);
        if !self.nullable() {
            self.lemma_match_moves(s, n);
        }
    }

    /// Greedy repetition of a pattern that is not nullable ends where the
    /// pattern no longer matches.
    pub proof fn lemma_repeat_is_greedy(self, s: Seq<char>, n: int)
        requires
            0 <= n,
            !self.nullable(),
        ensures
            self.matches(s, self.repeat(s, n)) is None,
        decreases s.len() - n,
    {
        self.lemma_match_moves(s, n);
        match self.matches(s, n) {
            Some(e) => self.lemma_repeat_is_greedy(s, e),
            None => {},
        }
    }
}

impl LetterPattern {
    /// The pattern as a mathematical value.
    pub open spec fn model(&self) -> LetterPatternView
        decreases self,
    {
        match self {
            LetterPattern::Char(p) => LetterPatternView::Char(*p),
            LetterPattern::Chars(ps) => LetterPatternView::Chars(ps@),
            LetterPattern::Str(lit) => LetterPatternView::Str(lit@),
            LetterPattern::Range(lo, hi) => LetterPatternView::Range(*lo, *hi),
            LetterPattern::And(ps) => LetterPatternView::And(
                Seq::new(
                    ps.len() as nat,
                    |i: int|
                        if 0 <= i < ps.len() {
                            ps[i].model()
                        } else {
                            arbitrary()
                        },
                ),
            ),
            LetterPattern::Or(ps) => LetterPatternView::Or(
                Seq::new(
                    ps.len() as nat,
                    |i: int|
                        if 0 <= i < ps.len() {
                            ps[i].model()
                        } else {
                            arbitrary()
                        },
                ),
            ),
            LetterPattern::Any(p) => LetterPatternView::Any(Box::new(p.model())),
            LetterPattern::More(p) => LetterPatternView::More(Box::new(p.model())),
        }
    }
}

impl View for LetterPattern {
    type V = LetterPatternView;

    open spec fn view(&self) -> LetterPatternView {
        self.model()
    }
}

impl LetterPattern {
    /// Matches the pattern against `s` from the character offset `n`.
    /// Returns whether it matched and the offset after the match; where
    /// it did not match, the offset is `n`. An offset at or past the end
    /// of the text matches no character. A repetition ends where its
    /// pattern no longer matches, or matches without consuming a
    /// character.
    pub fn matches(&self, s: &str, n: usize) -> (r: (bool, usize))
        ensures
            (r.0, r.1 as int) == outcome(self@.matches(s@, n as int), n as int),
            !r.0 ==> r.1 == n,
            n <= r.1,
            r.1 <= s@.len() || r.1 == n,
        decreases self, 0int,
    {
        proof {
            self@.lemma_match_bounds(s@, n as int);
        }
        match self {
            LetterPattern::Char(p) => {
                match Self::match_at(s, n) {
                    Some(c) => if is_same_letter(c, *p) {
                        (true, n + 1)
                    } else {
                        (false, n)
                    },
                    None => (false, n),
                }
            },
            LetterPattern::Chars(ps) => {
                match Self::match_at(s, n) {
                    Some(c) => {
                        let mut k: usize = 0;
                        while k < ps.len()
                            invariant
                                k <= ps.len(),
                                self == LetterPattern::Chars(*ps),
                                n < s@.len() <= usize::MAX,
                                c == s@[n as int],
                                forall|i: int| 0 <= i < k ==> !same_letter(c, #[trigger] ps@[i]),
                            decreases ps.len() - k,
                        {
                            if is_same_letter(c, ps[k]) {
                                assert(same_letter(s@[n as int], ps@[k as int]));
                                return (true, n + 1);
                            }
                            k += 1;
                        }
                        (false, n)
                    },
                    None => (false, n),
                }
            },
            LetterPattern::Str(lit) => {
                let text = lit.as_str();
                let m = text.unicode_len();
                let mut k: usize = 0;
                let mut i: usize = n;
                while k < m
                    invariant
                        k <= m,
                        self == LetterPattern::Str(*lit),
                        m == lit@.len(),
                        text@ == lit@,
                        i == n + k,
                        k > 0 ==> i <= s@.len(),
                        forall|j: int| 0 <= j < k ==> same_letter(s@[n + j], #[trigger] lit@[j]),
                    decreases m - k,
                {
                    match Self::match_at(s, i) {
                        Some(c) => {
                            if !is_same_letter(c, text.get_char(k)) {
                                assert(!same_letter(s@[n + k], lit@[k as int]));
                                return (false, n);
                            }
                        },
                        None => {
                            return (false, n);
                        },
                    }
                    i += 1;
                    k += 1;
                }
                (true, i)
            },
            LetterPattern::Range(lo, hi) => {
                match Self::match_at(s, n) {
                    Some(c) => if c >= *lo && c <= *hi {
                        (true, n + 1)
                    } else {
                        (false, n)
                    },
                    None => (false, n),
                }
            },
            LetterPattern::And(ps) => {
                let ghost all = self@->And_0;
                let mut i: usize = n;
                let mut k: usize = 0;
                assert(all.skip(0) =~= all);
                while k < ps.len()
                    invariant
                        k <= ps.len(),
                        self == LetterPattern::And(*ps),
                        all == self@->And_0,
                        n <= i,
                        LetterPatternView::match_all(all, s@, n as int)
                            == LetterPatternView::match_all(all.skip(k as int), s@, i as int),
                    decreases ps.len() - k,
                {
                    proof {
                        assert(all.skip(k as int).drop_first() =~= all.skip(k + 1));
                    }
                    let (matched, end) = ps[k].matches(s, i);
                    if matched {
                        i = end;
                    } else {
                        return (false, n);
                    }
                    k += 1;
                }
                (true, i)
            },
            LetterPattern::Or(ps) => {
                let ghost all = self@->Or_0;
                let mut k: usize = 0;
                assert(all.skip(0) =~= all);
                while k < ps.len()
                    invariant
                        k <= ps.len(),
                        self == LetterPattern::Or(*ps),
                        all == self@->Or_0,
                        LetterPatternView::match_first(all, s@, n as int)
                            == LetterPatternView::match_first(all.skip(k as int), s@, n as int),
                    decreases ps.len() - k,
                {
                    proof {
                        assert(all.skip(k as int).drop_first() =~= all.skip(k + 1));
                    }
                    let (matched, end) = ps[k].matches(s, n);
                    if matched {
                        return (true, end);
                    }
                    k += 1;
                }
                (false, n)
            },
            LetterPattern::Any(p) => Self::repeat(p, s, n),
            LetterPattern::More(p) => {
                let (matched, end) = p.matches(s, n);
                if matched {
                    Self::repeat(p, s, end)
                } else {
                    (false, n)
                }
            },
        }
    }

    /// The character at offset `n` of `s`, if the text reaches that far.
    fn match_at(s: &str, n: usize) -> (r: Option<char>)
        ensures
            r == if n < s@.len() {
                Some(s@[n as int])
            } else {
                None
            },
            s@.len() <= usize::MAX,
    {
        if n < s.unicode_len() {
            Some(s.get_char(n))
        } else {
            None
        }
    }

    /// Repeats `p` from `n` for as long as it matches and consumes a
    /// character. Never fails.
    fn repeat(p: &LetterPattern, s: &str, n: usize) -> (r: (bool, usize))
        ensures
            r.0,
            r.1 == p@.repeat(s@, n as int),
        decreases p, 1int,
    {
        let mut i: usize = n;
        loop
            invariant
                n <= i,
                p@.repeat(s@, n as int) == p@.repeat(s@, i as int),
            decreases s@.len() - i,
        {
            let (matched, end) = p.matches(s, i);
            if matched && end > i {
                i = end;
            } else {
                return (true, i);
            }
        }
    }
}

impl LetterPattern {
    /// Whether the shape of the pattern lets it match without consuming a
    /// character.
    pub fn nullable(&self) -> (r: bool)
        ensures
            r == self@.nullable(),
        decreases self,
    {
        match self {
            LetterPattern::Char(_) => false,
            LetterPattern::Chars(_) => false,
            LetterPattern::Str(lit) => lit.as_str().is_empty(),
            LetterPattern::Range(_, _) => false,
            LetterPattern::And(ps) => {
                let mut k: usize = 0;
                while k < ps.len()
                    invariant
                        k <= ps.len(),
                        self == LetterPattern::And(*ps),
                        forall|i: int| 0 <= i < k ==> (#[trigger] self@->And_0[i]).nullable(),
                    decreases ps.len() - k,
                {
                    if !ps[k].nullable() {
                        assert(!self@->And_0[k as int].nullable());
                        return false;
                    }
                    k += 1;
                }
                true
            },
            LetterPattern::Or(ps) => {
                let mut k: usize = 0;
                while k < ps.len()
                    invariant
                        k <= ps.len(),
                        self == LetterPattern::Or(*ps),
                        forall|i: int| 0 <= i < k ==> !(#[trigger] self@->Or_0[i]).nullable(),
                    decreases ps.len() - k,
                {
                    if ps[k].nullable() {
                        assert(self@->Or_0[k as int].nullable());
                        return true;
                    }
                    k += 1;
                }
                false
            },
            LetterPattern::Any(_) => true,
            LetterPattern::More(p) => p.nullable(),
        }
    }

    /// Whether every repetition in the pattern repeats something that
    /// consumes a character each time it matches.
    pub fn productive(&self) -> (r: bool)
        ensures
            r == self@.productive(),
        decreases self,
    {
        match self {
            LetterPattern::And(ps) => {
                let mut k: usize = 0;
                while k < ps.len()
                    invariant
                        k <= ps.len(),
                        self == LetterPattern::And(*ps),
                        forall|i: int| 0 <= i < k ==> (#[trigger] self@->And_0[i]).productive(),
                    decreases ps.len() - k,
                {
                    if !ps[k].productive() {
                        assert(!self@->And_0[k as int].productive());
                        return false;
                    }
                    k += 1;
                }
                true
            },
            LetterPattern::Or(ps) => {
                let mut k: usize = 0;
                while k < ps.len()
                    invariant
                        k <= ps.len(),
                        self == LetterPattern::Or(*ps),
                        forall|i: int| 0 <= i < k ==> (#[trigger] self@->Or_0[i]).productive(),
                    decreases ps.len() - k,
                {
                    if !ps[k].productive() {
                        assert(!self@->Or_0[k as int].productive());
                        return false;
                    }
                    k += 1;
                }
                true
            },
            LetterPattern::Any(p) => p.productive() && !p.nullable(),
            LetterPattern::More(p) => p.productive() && !p.nullable(),
            _ => true,
        }
    }

    /// Copies of the patterns of `ps`, in order.
    fn clone_all(ps: &Vec<Box<LetterPattern>>) -> (r: Vec<Box<LetterPattern>>)
        ensures
            r.len() == ps.len(),
            forall|i: int| 0 <= i < ps.len() ==> (#[trigger] r[i]).model() == ps[i].model(),
        decreases ps,
    {
        let mut r: Vec<Box<LetterPattern>> = Vec::new();
        let mut k: usize = 0;
        while k < ps.len()
            invariant
                k <= ps.len(),
                r.len() == k,
                forall|i: int| 0 <= i < k ==> (#[trigger] r[i]).model() == ps[i].model(),
            decreases ps.len() - k,
        {
            let copy = (*ps[k]).clone();
            r.push(Box::new(copy));
            k += 1;
        }
        r
    }
}

impl Clone for LetterPattern {
    fn clone(&self) -> (r: Self)
        ensures
            r@ == self@,
        decreases self,
    {
        match self {
            LetterPattern::Char(p) => LetterPattern::Char(*p),
            LetterPattern::Chars(ps) => {
                let copy = ps.clone();
                assert(copy@ =~= ps@);
                LetterPattern::Chars(copy)
            },
            LetterPattern::Str(lit) => LetterPattern::Str(lit.clone()),
            LetterPattern::Range(lo, hi) => LetterPattern::Range(*lo, *hi),
            LetterPattern::And(ps) => {
                let r = LetterPattern::And(LetterPattern::clone_all(ps));
                assert(r@->And_0 =~= self@->And_0);
                r
            },
            LetterPattern::Or(ps) => {
                let r = LetterPattern::Or(LetterPattern::clone_all(ps));
                assert(r@->Or_0 =~= self@->Or_0);
                r
            },
            LetterPattern::Any(p) => LetterPattern::Any(Box::new((**p).clone())),
            LetterPattern::More(p) => LetterPattern::More(Box::new((**p).clone())),
        }
    }
}

impl LetterId {
    /// The pattern that the text of a token of this kind matches.
    pub open spec fn pattern(self) -> LetterPatternView {
        match self {
            LetterId::Create => LetterPatternView::Str("CREATE"@),
            LetterId::Table => LetterPatternView::Str("TABLE"@),
            LetterId::Comma => LetterPatternView::Char(','),
            LetterId::ParenL => LetterPatternView::Char('('),
            LetterId::ParenR => LetterPatternView::Char(')'),
            LetterId::Id => LetterPatternView::And(
                seq![
                    LetterPatternView::Or(
                        seq![
                            LetterPatternView::Range('a', 'z'),
                            LetterPatternView::Range('A', 'Z'),
                        ],
                    ),
                    LetterPatternView::Any(
                        Box::new(
                            LetterPatternView::Or(
                                seq![
                                    LetterPatternView::Range('a', 'z'),
                                    LetterPatternView::Range('A', 'Z'),
                                    LetterPatternView::Range('0', '9'),
                                    LetterPatternView::Char('_'),
                                ],
                            ),
                        ),
                    ),
                ],
            ),
            LetterId::Skip => LetterPatternView::More(
                Box::new(LetterPatternView::Chars(seq![' ', '\t', '\r', '\n'])),
            ),
        }
    }

    /// The pattern of every token kind is productive and consumes at
    /// least one character wherever it matches.
    pub proof fn lemma_pattern_consumes(self)
        ensures
            self.pattern().productive(),
            !self.pattern().nullable(),
    {
        reveal_strlit("CREATE");
        reveal_strlit("TABLE");
        reveal_with_fuel(LetterPatternView::productive, 4);
        reveal_with_fuel(LetterPatternView::nullable, 4);
        if self == LetterId::Id {
            let head = LetterPatternView::Or(
                seq![LetterPatternView::Range('a', 'z'), LetterPatternView::Range('A', 'Z')],
            );
            let tail = LetterPatternView::Or(
                seq![
                    LetterPatternView::Range('a', 'z'),
                    LetterPatternView::Range('A', 'Z'),
                    LetterPatternView::Range('0', '9'),
                    LetterPatternView::Char('_'),
                ],
            );
            let rest = LetterPatternView::Any(Box::new(tail));
            let all = seq![head, rest];
            assert(head.productive());
            assert(!head.nullable());
            assert(tail.productive());
            assert(!tail.nullable());
            assert(rest.productive());
            assert(all[0] == head && all[1] == rest);
            assert(self.pattern() == LetterPatternView::And(all));
            assert(!all[0].nullable());
        }
    }
}

impl From<LetterId> for LetterPattern {
    fn from(value: LetterId) -> (r: Self)
        ensures
            r@ == value.pattern(),
    {
        proof {
            reveal_with_fuel(LetterPattern::model, 4);
        }
        match value {
            LetterId::Create => LetterPattern::Str("CREATE".to_string()),
            LetterId::Table => LetterPattern::Str("TABLE".to_string()),
            LetterId::Comma => LetterPattern::Char(','),
            LetterId::ParenL => LetterPattern::Char('('),
            LetterId::ParenR => LetterPattern::Char(')'),
            LetterId::Id => {
                let head = LetterPattern::Or(
                    vec![
                        Box::new(LetterPattern::Range('a', 'z')),
                        Box::new(LetterPattern::Range('A', 'Z')),
                    ],
                );
                let tail = LetterPattern::Or(
                    vec![
                        Box::new(LetterPattern::Range('a', 'z')),
                        Box::new(LetterPattern::Range('A', 'Z')),
                        Box::new(LetterPattern::Range('0', '9')),
                        Box::new(LetterPattern::Char('_')),
                    ],
                );
                assert(head@->Or_0 =~= value.pattern()->And_0[0]->Or_0);
                assert(tail@->Or_0 =~= value.pattern()->And_0[1]->Any_0->Or_0);
                let r = LetterPattern::And(
                    vec![Box::new(head), Box::new(LetterPattern::Any(Box::new(tail)))],
                );
                assert(r@->And_0 =~= value.pattern()->And_0);
                r
            },
            LetterId::Skip => {
                let set = vec![' ', '\t', '\r', '\n'];
                assert(set@ =~= seq![' ', '\t', '\r', '\n']);
                LetterPattern::More(Box::new(LetterPattern::Chars(set)))
            },
        }
    }
}

/// A pattern holds strings and vectors, which are known by their contents
/// only, so the conversion is stated over the pattern's view, on `from`
/// itself.
impl FromSpecImpl<LetterId> for LetterPattern {
    open spec fn obeys_from_spec() -> bool {
        false
    }

    open spec fn from_spec(value: LetterId) -> Self {
        arbitrary()
    }
}

} // verus!
