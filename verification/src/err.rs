//! Errors, and the place of an error in the text: line and column of a
//! character offset.

use vstd::prelude::*;
use vstd::string::{StrSliceExecFns, StringExecFns};

verus! {

/// What can go wrong with a text: a token that the grammar expects is
/// missing at an offset, or no token starts at an offset.
#[derive(Debug, PartialEq, Eq)]
pub enum SqlErr {
    /// The offset, and the name of the token that was expected there.
    Miss(usize, String),
    /// The offset of the first character that could not be read.
    Syntax(usize),
}

/// An error as plain values.
pub enum SqlErrView {
    Miss(int, Seq<char>),
    Syntax(int),
}

impl View for SqlErr {
    type V = SqlErrView;

    open spec fn view(&self) -> SqlErrView {
        match self {
            SqlErr::Miss(n, name) => SqlErrView::Miss(*n as int, name@),
            SqlErr::Syntax(n) => SqlErrView::Syntax(*n as int),
        }
    }
}

impl DeepView for SqlErr {
    type V = SqlErrView;

    open spec fn deep_view(&self) -> SqlErrView {
        self@
    }
}

impl Clone for SqlErr {
    fn clone(&self) -> (r: Self)
        ensures
            r == *self,
    {
        match self {
            SqlErr::Miss(n, name) => SqlErr::Miss(*n, name.clone()),
            SqlErr::Syntax(n) => SqlErr::Syntax(*n),
        }
    }
}

/// The offset `n`, or the length of the text where `n` lies past its end.
pub open spec fn clip(s: Seq<char>, n: int) -> int {
    if n < 0 {
        0
    } else if n < s.len() {
        n
    } else {
        s.len() as int
    }
}

/// The offset at which the line that holds offset `n` begins: just after
/// the last newline before `n`, or 0 where there is none.
pub open spec fn line_start(s: Seq<char>, n: int) -> int
    decreases n,
{
    if n <= 0 {
        0
    } else if s[n - 1] == '\n' {
        n
    } else {
        line_start(s, n - 1)
    }
}

/// The newlines among the first `n` characters of `s`.
pub open spec fn newlines(s: Seq<char>, n: int) -> Seq<char> {
    s.take(clip(s, n)).filter(|c: char| c == '\n')
}

/// The line and the column of offset `n` in `s`, both counted from 1. An
/// offset past the end of the text stands for the end of the text.
pub open spec fn location(s: Seq<char>, n: int) -> (int, int) {
    (1 + newlines(s, n).len() as int, 1 + clip(s, n) - line_start(s, clip(s, n)))
}

/// The first character of a text stands on line 1, in column 1.
pub proof fn lemma_location_origin(s: Seq<char>)
    ensures
        location(s, 0) == (1int, 1int),
{
    reveal(Seq::filter);
    assert(s.take(0).len() == 0);
}

/// From one offset to the next, a newline begins a new line at column 1,
/// and any other character moves one column to the right.
pub proof fn lemma_location_step(s: Seq<char>, n: int)
    requires
        0 <= n < s.len(),
    ensures
        s[n] == '\n' ==> location(s, n + 1) == (location(s, n).0 + 1, 1int),
        s[n] != '\n' ==> location(s, n + 1) == (location(s, n).0, location(s, n).1 + 1),
{
    reveal(Seq::filter);
    assert(s.take(n + 1).drop_last() =~= s.take(n));
}

/// The line of an offset begins after a newline or with the text, and no
/// newline stands between the beginning of the line and the offset.
pub proof fn lemma_line_start(s: Seq<char>, n: int)
    requires
        0 <= n <= s.len(),
    ensures
        0 <= line_start(s, n) <= n,
        line_start(s, n) == 0 || s[line_start(s, n) - 1] == '\n',
        forall|i: int| line_start(s, n) <= i < n ==> s[i] != '\n',
    decreases n,
{
    if n > 0 && s[n - 1] != '\n' {
        lemma_line_start(s, n - 1);
    }
}

/// The decimal digit that stands for `d`.
pub open spec fn digit(d: int) -> char {
    if d == 0 {
        '0'
    } else if d == 1 {
        '1'
    } else if d == 2 {
        '2'
    } else if d == 3 {
        '3'
    } else if d == 4 {
        '4'
    } else if d == 5 {
        '5'
    } else if d == 6 {
        '6'
    } else if d == 7 {
        '7'
    } else if d == 8 {
        '8'
    } else {
        '9'
    }
}

/// The decimal digits of `n`, without leading zeros.
pub open spec fn decimal(n: int) -> Seq<char>
    decreases n,
{
    if n < 10 {
        seq![digit(n)]
    } else {
        decimal(n / 10).push(digit(n % 10))
    }
}

/// What an error says before it gives the place.
pub open spec fn headline(err: SqlErrView) -> Seq<char> {
    match err {
        SqlErrView::Miss(_, name) => "Missing '"@ + name + "'"@,
        SqlErrView::Syntax(_) => "Syntax error"@,
    }
}

/// The offset at which an error was found.
pub open spec fn offset(err: SqlErrView) -> int {
    match err {
        SqlErrView::Miss(n, _) => n,
        SqlErrView::Syntax(n) => n,
    }
}

/// The message of an error found in the text `s`: the headline, then the
/// line and the column of the error's offset.
pub open spec fn message(err: SqlErrView, s: Seq<char>) -> Seq<char> {
    headline(err) + " at "@ + decimal(location(s, offset(err)).0) + ", "@ + decimal(
        location(s, offset(err)).1,
    )
}

/// The decimal digit that stands for `d`, as a string.
fn digit_str(d: usize) -> (r: &'static str)
    requires
        d < 10,
    ensures
        r@ == seq![digit(d as int)],
{
    proof {
        reveal_strlit("0");
        reveal_strlit("1");
        reveal_strlit("2");
        reveal_strlit("3");
        reveal_strlit("4");
        reveal_strlit("5");
        reveal_strlit("6");
        reveal_strlit("7");
        reveal_strlit("8");
        reveal_strlit("9");
    }
    let r = if d == 0 {
        "0"
    } else if d == 1 {
        "1"
    } else if d == 2 {
        "2"
    } else if d == 3 {
        "3"
    } else if d == 4 {
        "4"
    } else if d == 5 {
        "5"
    } else if d == 6 {
        "6"
    } else if d == 7 {
        "7"
    } else if d == 8 {
        "8"
    } else {
        "9"
    };
    assert(r@ =~= seq![digit(d as int)]);
    r
}

/// Writes `n` in decimal digits.
pub fn to_decimal(n: usize) -> (r: String)
    ensures
        r@ == decimal(n as int),
    decreases n,
{
    if n < 10 {
        String::from_str(digit_str(n))
    } else {
        let mut r = to_decimal(n / 10);
        r.append(digit_str(n % 10));
        assert(r@ =~= decimal(n as int));
        r
    }
}

impl SqlErr {
    /// The message of this error for the text `s` in which it was found.
    pub fn msg(&self, s: &str) -> (r: String)
        requires
            s@.len() < usize::MAX,
        ensures
            r@ == message(self@, s@),
    {
        match self {
            SqlErr::Miss(n, name) => {
                let head = String::from_str("Missing '").concat(name.as_str()).concat("'");
                Self::loc_str(head.as_str(), s, *n)
            },
            SqlErr::Syntax(n) => Self::loc_str("Syntax error", s, *n),
        }
    }

    /// `msg`, then the line and the column of offset `n` in `s`.
    pub fn loc_str(msg: &str, s: &str, n: usize) -> (r: String)
        requires
            s@.len() < usize::MAX,
        ensures
            r@ == msg@ + " at "@ + decimal(location(s@, n as int).0) + ", "@ + decimal(
                location(s@, n as int).1,
            ),
    {
        let (line, col) = Self::loc(s, n);
        let line_digits = to_decimal(line);
        let col_digits = to_decimal(col);
        String::from_str(msg).concat(" at ").concat(line_digits.as_str()).concat(", ").concat(
            col_digits.as_str(),
        )
    }

    /// The line and the column of offset `n` in `s`, both counted from 1.
    pub fn loc(s: &str, n: usize) -> (r: (usize, usize))
        requires
            s@.len() < usize::MAX,
        ensures
            (r.0 as int, r.1 as int) == location(s@, n as int),
    {
        let len = s.unicode_len();
        let mut line: usize = 1;
        let mut col: usize = 1;
        let mut i: usize = 0;
        proof {
            lemma_location_origin(s@);
        }
        while i < n && i < len
            invariant
                i <= n,
                i <= len,
                len == s@.len(),
                len < usize::MAX,
                (line as int, col as int) == location(s@, i as int),
                line <= i + 1,
                col <= i + 1,
            decreases len - i,
        {
            proof {
                lemma_location_step(s@, i as int);
            }
            if s.get_char(i) == '\n' {
                line += 1;
                col = 1;
            } else {
                col += 1;
            }
            i += 1;
        }
        (line, col)
    }
}

} // verus!
