//! Comparison of characters without regard to case.
//!
//! Two characters are the same letter when the lowercase mappings that the
//! standard library gives them begin with the same character. The mapping
//! itself is a table of Unicode: this module names it and takes the
//! standard library's word for it.

use core::char::ToLowercase;
use vstd::prelude::*;

verus! {

/// The iterator that `char::to_lowercase` returns.
#[verifier::external_type_specification]
#[verifier::external_body]
pub struct ExToLowercase(core::char::ToLowercase);

/// The lowercase mapping of `c`: the characters that `char::to_lowercase`
/// yields for it, in order.
pub uninterp spec fn lowercase(c: char) -> Seq<char>;

/// The characters that a lowercase iterator has yet to yield, in order.
pub uninterp spec fn pending(it: ToLowercase) -> Seq<char>;

/// Calls `char::to_lowercase`. Taken on trust: the iterator that comes
/// back has the whole lowercase mapping of `c` yet to yield.
#[verifier::external_body]
fn lowercase_iter(c: char) -> (it: ToLowercase)
    ensures
        pending(it) == lowercase(c),
{
    c.to_lowercase()
}

/// Calls `Iterator::next` on a lowercase iterator. Taken on trust: it
/// hands out the first character that the iterator had yet to yield and
/// leaves the others to come, or hands out nothing where none was left.
#[verifier::external_body]
fn lowercase_next(it: &mut ToLowercase) -> (r: Option<char>)
    ensures
        pending(*old(it)).len() == 0 ==> r is None && pending(*final(it)).len() == 0,
        pending(*old(it)).len() > 0 ==> r == Some(pending(*old(it))[0]) && pending(*final(it))
            == pending(*old(it)).drop_first(),
{
    it.next()
}

/// The first character of the lowercase mapping of `c`, if it has one.
pub open spec fn folded(c: char) -> Option<char> {
    if lowercase(c).len() > 0 {
        Some(lowercase(c)[0])
    } else {
        None
    }
}

/// Whether two characters are the same letter when case is ignored.
pub open spec fn same_letter(a: char, b: char) -> bool {
    folded(a) == folded(b)
}

/// The first character of the lowercase mapping of `c`.
pub fn fold(c: char) -> (r: Option<char>)
    ensures
        r == folded(c),
{
    let mut it = lowercase_iter(c);
    lowercase_next(&mut it)
}

/// Whether `a` and `b` are the same letter when case is ignored.
pub fn is_same_letter(a: char, b: char) -> (r: bool)
    ensures
        r == same_letter(a, b),
{
    match (fold(a), fold(b)) {
        (Some(x), Some(y)) => x == y,
        (None, None) => true,
        _ => false,
    }
}

} // verus!
