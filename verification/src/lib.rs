//! Summary statistics of the runs of an alignment-operation string.
//!
//! An operation string such as `10=2X3I5=` lists the runs of an alignment:
//! a decimal length followed by one letter for the kind of the run. This
//! library finds the runs in a text and folds them, kind by kind, into the
//! total length, the number of runs, and the longest and the shortest run.
//!
//! - [`grammar`] says which runs a text holds, and [`summary`] what their
//!   statistics are. Both are mathematics: functions on sequences, with the
//!   laws that hold of them in [`laws`].
//! - [`scanner`] finds the runs, [`stats`] folds them, and [`counts`] does
//!   both in one pass over the text.
//! - [`line`], [`record`] and [`table`] take a line of an alignment file to
//!   the row that is written for it, and [`input`] tells which files are
//!   compressed.

pub mod counts;
pub mod error;
pub mod grammar;
pub mod input;
pub mod laws;
pub mod line;
pub mod record;
pub mod run;
pub mod scanner;
pub mod stats;
pub mod summary;
pub mod table;

pub use counts::compute_counts;
pub use error::CigarError;
pub use line::summarize_line;
pub use record::{summarize_fields, Outcome, Record};
pub use run::{Kind, Run};
pub use scanner::{tokenize, Scanner};
pub use stats::{aggregate, CigarStats, KindStats};
pub use table::{columns, Column, HEADER};
