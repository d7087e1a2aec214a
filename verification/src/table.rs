//! The table that is written: its header and the columns of a row.
//!
//! After the seven fields that place the alignment come the totals of the
//! four kinds, then their counts, then for each kind its longest run, its
//! shortest run and its average run length. The kinds stand in the order
//! match, mismatch, insertion, deletion.

use vstd::prelude::*;
use crate::record::{Record, RecordView};
use crate::stats::KindStats;
use crate::summary::KindSummary;

verus! {

/// The first line of the table: the names of its columns, separated by
/// tabs.
pub const HEADER: &'static str =
    "q.name\tq.start\tq.end\tq.strand\tt.name\tt.start\tt.end\tnum.=\tnum.X\tnum.I\tnum.D\tunique.=\tunique.X\tunique.I\tunique.D\tlongest.=\tshortest.=\tavg.=\tlongest.X\tshortest.X\tavg.X\tlongest.I\tshortest.I\tavg.I\tlongest.D\tshortest.D\tavg.D";

/// What stands in one column of a row.
#[derive(Debug, PartialEq, Eq)]
pub enum Column {
    /// A field of the record, as it was read.
    Text(String),
    /// A whole number.
    Number(i64),
    /// An average run length, as the total that is to be divided by the
    /// count. Where the count is zero the average is zero.
    Average { total: i64, count: i64 },
}

/// A column as a mathematical value.
pub enum ColumnView {
    Text(Seq<char>),
    Number(int),
    Average { total: int, count: int },
}

impl View for Column {
    type V = ColumnView;

    open spec fn view(&self) -> ColumnView {
        match self {
            Column::Text(text) => ColumnView::Text(text@),
            Column::Number(number) => ColumnView::Number(*number as int),
            Column::Average { total, count } => ColumnView::Average {
                total: *total as int,
                count: *count as int,
            },
        }
    }
}

/// The mathematical values of a sequence of columns, in the same order.
pub open spec fn column_views(columns: Seq<Column>) -> Seq<ColumnView> {
    columns.map_values(|column: Column| column@)
}

/// The three columns that close a row for one kind: longest run, shortest
/// run, average.
pub open spec fn extremes_of(stats: KindSummary) -> Seq<ColumnView> {
    seq![
        ColumnView::Number(stats.longest),
        ColumnView::Number(stats.shortest),
        ColumnView::Average { total: stats.total, count: stats.count },
    ]
}

/// The twenty-seven columns of a row, from left to right.
pub open spec fn columns_of(record: RecordView) -> Seq<ColumnView> {
    seq![
        ColumnView::Text(record.query_name),
        ColumnView::Text(record.query_start),
        ColumnView::Text(record.query_end),
        ColumnView::Text(record.strand),
        ColumnView::Text(record.target_name),
        ColumnView::Text(record.target_start),
        ColumnView::Text(record.target_end),
        ColumnView::Number(record.stats.matches.total),
        ColumnView::Number(record.stats.mismatches.total),
        ColumnView::Number(record.stats.insertions.total),
        ColumnView::Number(record.stats.deletions.total),
        ColumnView::Number(record.stats.matches.count),
        ColumnView::Number(record.stats.mismatches.count),
        ColumnView::Number(record.stats.insertions.count),
        ColumnView::Number(record.stats.deletions.count),
    ] + extremes_of(record.stats.matches) + extremes_of(record.stats.mismatches) + extremes_of(
        record.stats.insertions,
    ) + extremes_of(record.stats.deletions)
}

/// Adds the three closing columns of one kind to a row.
fn push_extremes(row: &mut Vec<Column>, stats: KindStats)
    ensures
        column_views(final(row)@) == column_views(old(row)@) + extremes_of(stats@),
{
    row.push(Column::Number(stats.longest));
    row.push(Column::Number(stats.shortest));
    row.push(Column::Average { total: stats.total, count: stats.count });
    assert(column_views(row@) =~= column_views(old(row)@) + extremes_of(stats@));
}

/// Lays a record out as the columns of its row.
pub fn columns(record: &Record) -> (row: Vec<Column>)
    ensures
        column_views(row@) == columns_of(record@),
        row@.len() == 27,
{
    let stats = record.stats;
    let mut row: Vec<Column> = Vec::new();
    row.push(Column::Text(record.query_name.clone()));
    row.push(Column::Text(record.query_start.clone()));
    row.push(Column::Text(record.query_end.clone()));
    row.push(Column::Text(record.strand.clone()));
    row.push(Column::Text(record.target_name.clone()));
    row.push(Column::Text(record.target_start.clone()));
    row.push(Column::Text(record.target_end.clone()));
    row.push(Column::Number(stats.matches.total));
    row.push(Column::Number(stats.mismatches.total));
    row.push(Column::Number(stats.insertions.total));
    row.push(Column::Number(stats.deletions.total));
    row.push(Column::Number(stats.matches.count));
    row.push(Column::Number(stats.mismatches.count));
    row.push(Column::Number(stats.insertions.count));
    row.push(Column::Number(stats.deletions.count));
    assert(column_views(row@) =~= columns_of(record@).take(15));
    push_extremes(&mut row, stats.matches);
    push_extremes(&mut row, stats.mismatches);
    push_extremes(&mut row, stats.insertions);
    push_extremes(&mut row, stats.deletions);
    assert(column_views(row@) =~= columns_of(record@));
    row
}

} // verus!
