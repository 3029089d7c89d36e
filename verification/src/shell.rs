//! Command lines: words, quoting, and the words that stand for files and names.

use vstd::prelude::*;

use crate::text::{split_whitespace, views, words};

verus! {

/// The words that `shell_words::split` makes of a command line, or `None` where it reports a quote
/// that is not closed.
pub uninterp spec fn shell_split(line: Seq<char>) -> Option<Seq<Seq<char>>>;

/// Calls `shell_words::split`. The words depend on the line alone.
#[verifier::external_body]
fn split(line: &str) -> (r: Option<Vec<String>>)
    ensures
        match r {
            Some(w) => shell_split(line@) == Some(views(w@)),
            None => shell_split(line@) is None,
        },
{
    shell_words::split(line).ok()
}

/// The command line that `shell_words::join` makes of words.
pub uninterp spec fn shell_join(words: Seq<Seq<char>>) -> Seq<char>;

/// Calls `shell_words::join`. The line depends on the words alone, and `shell_words::split` gives
/// the words back: every word that holds a special character, and the empty word, is quoted.
#[verifier::external_body]
pub(crate) fn join(words: &Vec<String>) -> (r: String)
    ensures
        r@ == shell_join(views(words@)),
        shell_split(r@) == Some(views(words@)),
{
    shell_words::join(words)
}

/// The words of a command line. Where a quote is not closed, the words are those between white
/// space.
pub open spec fn command_words(line: Seq<char>) -> Seq<Seq<char>> {
    words_or(shell_split(line), line)
}

/// The words that were split off a command line, or those between white space.
pub open spec fn words_or(split: Option<Seq<Seq<char>>>, line: Seq<char>) -> Seq<Seq<char>> {
    match split {
        Some(w) => w,
        None => words(line),
    }
}

/// The words that were split off a command line, or those between white space.
pub fn split_or_words(split: Option<Vec<String>>, line: &str) -> (r: Vec<String>)
    ensures
        views(r@) == words_or(
            match split {
                Some(w) => Some(views(w@)),
                None => None,
            },
            line@,
        ),
{
    match split {
        Some(w) => w,
        None => split_whitespace(line),
    }
}

/// The words of a command line. Where a quote is not closed, the words are those between white
/// space.
pub fn command_line(line: &str) -> (r: Vec<String>)
    ensures
        views(r@) == command_words(line@),
{
    let w = split(line);
    split_or_words(w, line)
}

/// The words that were split off are taken as they are; only where splitting failed the words are those
/// between white space.
pub proof fn law_words_of_a_command(line: Seq<char>, split: Seq<Seq<char>>)
    ensures
        words_or(Some(split), line) == split,
        words_or(None, line) == words(line),
        shell_split(line) matches Some(w) ==> command_words(line) == w,
        shell_split(line) is None ==> command_words(line) == words(line),
{
}

} // verus!
