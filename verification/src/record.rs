//! From the fields of an alignment record to its row of statistics.
//!
//! A record is a line of fields separated by white space. Seven of its
//! fields, by their position, name the two sequences and the ranges that are
//! aligned. The operation string is the rest of the first field that begins
//! with the tag `cg:Z:`, wherever that field stands.

use vstd::prelude::*;
use vstd::string::StrSliceExecFns;
use vstd::std_specs::iter::IteratorSpec;
use crate::counts::{compute_counts, counts_of};
use crate::stats::CigarStats;
use crate::summary::CigarSummary;

verus! {

broadcast use vstd::string::group_string_axioms;

/// The least number of fields of a record.
pub const MIN_FIELDS: usize = 11;

/// The tag before the operation string: the five characters `cg:Z:`.
pub open spec fn cigar_tag() -> Seq<char> {
    seq!['c', 'g', ':', 'Z', ':']
}

/// What follows the tag in a field that begins with it.
pub open spec fn tagged_text(field: Seq<char>) -> Option<Seq<char>> {
    if cigar_tag().is_prefix_of(field) {
        Some(field.skip(5))
    } else {
        None
    }
}

/// What follows the tag in the first of the fields that begins with it.
pub open spec fn first_tagged(fields: Seq<Seq<char>>) -> Option<Seq<char>>
    decreases fields.len(),
{
    if fields.len() == 0 {
        None
    } else {
        match tagged_text(fields.first()) {
            Some(text) => Some(text),
            None => first_tagged(fields.drop_first()),
        }
    }
}

/// The texts of a sequence of strings, in the same order.
pub open spec fn texts(fields: Seq<String>) -> Seq<Seq<char>> {
    fields.map_values(|field: String| field@)
}

/// One row of the table: the seven fields that place the alignment, as
/// they were read, and the statistics of its operation string.
#[derive(Debug, PartialEq, Eq)]
pub struct Record {
    pub query_name: String,
    pub query_start: String,
    pub query_end: String,
    pub strand: String,
    pub target_name: String,
    pub target_start: String,
    pub target_end: String,
    pub stats: CigarStats,
}

/// A row as a mathematical value.
pub struct RecordView {
    pub query_name: Seq<char>,
    pub query_start: Seq<char>,
    pub query_end: Seq<char>,
    pub strand: Seq<char>,
    pub target_name: Seq<char>,
    pub target_start: Seq<char>,
    pub target_end: Seq<char>,
    pub stats: CigarSummary,
}

impl View for Record {
    type V = RecordView;

    open spec fn view(&self) -> RecordView {
        RecordView {
            query_name: self.query_name@,
            query_start: self.query_start@,
            query_end: self.query_end@,
            strand: self.strand@,
            target_name: self.target_name@,
            target_start: self.target_start@,
            target_end: self.target_end@,
            stats: self.stats@,
        }
    }
}

/// What becomes of a line of input.
#[derive(Debug, PartialEq, Eq)]
pub enum Outcome {
    /// The line is no record: it has too few fields, or none of them holds
    /// an operation string. It gives no row.
    Skipped,
    /// The line is a record whose numbers do not fit. It gives no row.
    Malformed,
    /// The line is a record, and this is its row.
    Row(Record),
}

/// What becomes of a line, as a mathematical value.
pub enum OutcomeView {
    Skipped,
    Malformed,
    Row(RecordView),
}

impl View for Outcome {
    type V = OutcomeView;

    open spec fn view(&self) -> OutcomeView {
        match self {
            Outcome::Skipped => OutcomeView::Skipped,
            Outcome::Malformed => OutcomeView::Malformed,
            Outcome::Row(record) => OutcomeView::Row(record@),
        }
    }
}

/// What becomes of a line with the given fields.
pub open spec fn outcome_of(fields: Seq<Seq<char>>) -> OutcomeView {
    if fields.len() < MIN_FIELDS {
        OutcomeView::Skipped
    } else {
        match first_tagged(fields) {
            None => OutcomeView::Skipped,
            Some(text) => if counts_of(text).fits() {
                OutcomeView::Row(
                    RecordView {
                        query_name: fields[0],
                        query_start: fields[2],
                        query_end: fields[3],
                        strand: fields[4],
                        target_name: fields[5],
                        target_start: fields[7],
                        target_end: fields[8],
                        stats: counts_of(text),
                    },
                )
            } else {
                OutcomeView::Malformed
            },
        }
    }
}

/// The operation string is taken from the first tagged field: no field
/// before it begins with the tag, and where there is none, no field does.
pub proof fn lemma_first_tagged(fields: Seq<Seq<char>>)
    ensures
        match first_tagged(fields) {
            Some(text) => exists|i: int|
                0 <= i < fields.len() && tagged_text(#[trigger] fields[i]) == Some(text)
                    && forall|j: int| 0 <= j < i ==> tagged_text(#[trigger] fields[j]) is None,
            None => forall|i: int|
                0 <= i < fields.len() ==> tagged_text(#[trigger] fields[i]) is None,
        },
    decreases fields.len(),
{
    if fields.len() > 0 {
        let rest = fields.drop_first();
        lemma_first_tagged(rest);
        match tagged_text(fields.first()) {
            Some(text) => {
                assert(tagged_text(fields[0]) == Some(text));
            },
            None => {
                match first_tagged(rest) {
                    Some(text) => {
                        let i = choose|i: int|
                            0 <= i < rest.len() && tagged_text(#[trigger] rest[i]) == Some(text)
                                && forall|j: int|
                                0 <= j < i ==> tagged_text(#[trigger] rest[j]) is None;
                        assert(fields[i + 1] == rest[i]);
                        assert forall|j: int| 0 <= j < i + 1 implies tagged_text(
                            #[trigger] fields[j],
                        ) is None by {
                            if j > 0 {
                                assert(fields[j] == rest[j - 1]);
                            }
                        }
                    },
                    None => {
                        assert forall|i: int| 0 <= i < fields.len() implies tagged_text(
                            #[trigger] fields[i],
                        ) is None by {
                            if i > 0 {
                                assert(fields[i] == rest[i - 1]);
                            }
                        }
                    },
                }
            },
        }
    }
}

/// Takes the tag off a field: gives what follows the tag if the field
/// begins with it, and nothing if it does not.
pub fn strip_tag(field: &str) -> (text: Option<&str>)
    ensures
        match text {
            Some(rest) => tagged_text(field@) == Some(rest@),
            None => tagged_text(field@) is None,
        },
{
    let tag: [char; 5] = ['c', 'g', ':', 'Z', ':'];
    assert(tag@ =~= cigar_tag());
    let mut chars = field.chars();
    let mut i: usize = 0;
    while i < 5
        invariant
            i <= 5,
            tag@ == cigar_tag(),
            chars.obeys_prophetic_iter_laws(),
            i <= field@.len(),
            chars.remaining() == field@.skip(i as int),
            forall|j: int| 0 <= j < i ==> field@[j] == cigar_tag()[j],
        decreases 5 - i,
    {
        match chars.next() {
            Some(c) => {
                if c != tag[i] {
                    return None;
                }
            },
            None => {
                return None;
            },
        }
        assert(field@.skip(i as int).drop_first() =~= field@.skip(i + 1));
        i = i + 1;
    }
    let n = field.unicode_len();
    Some(field.substring_char(5, n))
}

/// Finds the operation string among the fields of a line: what follows the
/// tag in the first field that begins with it.
pub fn find_cigar(fields: &Vec<String>) -> (text: Option<&str>)
    ensures
        match text {
            Some(rest) => first_tagged(texts(fields@)) == Some(rest@),
            None => first_tagged(texts(fields@)) is None,
        },
{
    let mut i: usize = 0;
    assert(texts(fields@).skip(0) =~= texts(fields@));
    while i < fields.len()
        invariant
            i <= fields@.len(),
            first_tagged(texts(fields@)) == first_tagged(texts(fields@).skip(i as int)),
        decreases fields@.len() - i,
    {
        let ghost rest = texts(fields@).skip(i as int);
        assert(rest.first() == fields@[i as int]@);
        assert(rest.drop_first() =~= texts(fields@).skip(i + 1));
        match strip_tag(fields[i].as_str()) {
            Some(text) => {
                return Some(text);
            },
            None => {},
        }
        i = i + 1;
    }
    None
}

/// Turns the fields of a line into its row of statistics.
///
/// A line with fewer than eleven fields, or without a field that begins
/// with the tag, is skipped. A line whose totals or counts do not fit in a
/// signed 64-bit integer is malformed.
pub fn summarize_fields(fields: &Vec<String>) -> (outcome: Outcome)
    ensures
        outcome@ == outcome_of(texts(fields@)),
{
    if fields.len() < MIN_FIELDS {
        return Outcome::Skipped;
    }
    let text = match find_cigar(fields) {
        Some(text) => text,
        None => {
            return Outcome::Skipped;
        },
    };
    match compute_counts(text) {
        Ok(stats) => Outcome::Row(
            Record {
                query_name: fields[0].clone(),
                query_start: fields[2].clone(),
                query_end: fields[3].clone(),
                strand: fields[4].clone(),
                target_name: fields[5].clone(),
                target_start: fields[7].clone(),
                target_end: fields[8].clone(),
                stats,
            },
        ),
        Err(_) => Outcome::Malformed,
    }
}

} // verus!
