//! A small parsing engine in two layers, shown on one statement of SQL.
//!
//! The lower layer matches patterns against the characters of a text and
//! cuts the text into tokens. The upper layer matches patterns against the
//! tokens, with rules that refer to one another and repetition that tries
//! ahead on a cursor of its own, and makes of what it matched the tree of
//! a `CREATE TABLE` statement. Errors carry the character offset at which
//! they were found.
//!
//! Every function comes with a contract over the plain values that its
//! arguments and its result stand for (their views), and is proved to
//! meet it, with one exception: the two private functions of `casefold`
//! that call the standard library for the lowercase mapping of a
//! character. Their contracts are taken on trust, and the comparison of
//! characters without regard to case rests on them.

pub mod casefold;
pub mod clause;
pub mod err;
pub mod expr;
pub mod grammar;
pub mod grammar_id;
pub mod grammar_pattern;
pub mod letter;
pub mod letter_id;
pub mod letter_pattern;
pub mod lexicon;
pub mod parse;
pub mod statement;
pub mod stmt;
pub mod syntax;
