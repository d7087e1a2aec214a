//! From a line of input to its row of statistics.

use vstd::prelude::*;
use crate::record::{outcome_of, summarize_fields, texts, Outcome};

verus! {

/// The fields of a line: its pieces between stretches of white space, from
/// left to right, as `str::split_whitespace` gives them.
pub uninterp spec fn whitespace_fields(line: Seq<char>) -> Seq<Seq<char>>;

/// Splits a line into its fields with `str::split_whitespace` of the
/// standard library, and copies each field into a string of its own.
///
/// Not proved: that the strings handed back are the fields that
/// `split_whitespace` yields for this line, in its order. What counts as
/// white space is left to the standard library.
#[verifier::external_body]
fn split_fields(line: &str) -> (fields: Vec<String>)
    ensures
        texts(fields@) == whitespace_fields(line@),
{
    line.split_whitespace().map(String::from).collect()
}

/// Turns a line of input into its row of statistics.
///
/// The line is split into fields at white space, and the fields are dealt
/// with as `summarize_fields` says.
pub fn summarize_line(line: &str) -> (outcome: Outcome)
    ensures
        outcome@ == outcome_of(whitespace_fields(line@)),
{
    let fields = split_fields(line);
    summarize_fields(&fields)
}

} // verus!
