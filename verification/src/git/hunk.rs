//! Changed line ranges.

use vstd::prelude::*;

verus! {

/// A contiguous 1-based source-line range.
#[derive(Debug, Clone, Copy, PartialEq, Eq, Structural)]
pub struct LineRange {
    /// 1-based source line.
    pub start: usize,
    /// Number of changed lines.
    pub count: usize,
}

/// The changed ranges on each side of a diff hunk.
#[derive(Debug, Clone, Copy, PartialEq, Eq, Structural)]
pub struct DiffHunk {
    /// Range in the base version, if present.
    pub before: Option<LineRange>,
    /// Range in the prospective version, if present.
    pub after: Option<LineRange>,
}

/// The zero-based row of the first line of a range.
pub open spec fn first_row(range: LineRange) -> int {
    if range.start == 0 {
        0
    } else {
        range.start - 1
    }
}

/// The row past the last line of a range; rows past `usize::MAX` do not exist.
pub open spec fn end_row(range: LineRange) -> int {
    if first_row(range) + range.count > usize::MAX {
        usize::MAX as int
    } else {
        first_row(range) + range.count
    }
}

/// Whether a row lies in one of the ranges.
pub open spec fn row_in(row: int, ranges: Seq<LineRange>) -> bool {
    exists|i: int| 0 <= i < ranges.len() && first_row(#[trigger] ranges[i]) <= row < end_row(ranges[i])
}

/// Whether the rows `first..=last` meet one of the ranges.
pub open spec fn rows_meet(first: int, last: int, ranges: Seq<LineRange>) -> bool {
    exists|i: int|
        0 <= i < ranges.len() && first_row(#[trigger] ranges[i]) <= last && first < end_row(ranges[i])
}

impl LineRange {
    /// The zero-based rows of the range, as first row and row past the end.
    pub fn rows(&self) -> (rows: (usize, usize))
        ensures
            rows.0 == first_row(*self),
            rows.1 == end_row(*self),
    {
        let start = self.start.saturating_sub(1);
        (start, start.saturating_add(self.count))
    }
}

/// Whether a zero-based source row belongs to a changed range.
pub fn changed_line(row: usize, ranges: &[LineRange]) -> (result: bool)
    ensures
        result == row_in(row as int, ranges@),
{
    for i in 0..ranges.len()
        invariant
            forall|j: int|
                0 <= j < i ==> !(first_row(#[trigger] ranges@[j]) <= row < end_row(ranges@[j])),
    {
        let (start, end) = ranges[i].rows();
        if start <= row && row < end {
            return true;
        }
    }
    false
}

/// Whether the rows `first..=last` meet a changed range.
pub fn overlaps_rows(first: usize, last: usize, ranges: &[LineRange]) -> (result: bool)
    ensures
        result == rows_meet(first as int, last as int, ranges@),
{
    for i in 0..ranges.len()
        invariant
            forall|j: int|
                0 <= j < i ==> !(first_row(#[trigger] ranges@[j]) <= last && first < end_row(
                    ranges@[j],
                )),
    {
        let (start, end) = ranges[i].rows();
        if start <= last && first < end {
            return true;
        }
    }
    false
}

/// Whether a range is one that a file can have: it starts at a line and holds lines, all of them
/// within what a `usize` counts.
pub open spec fn holds_lines(range: LineRange) -> bool {
    range.start >= 1 && range.count >= 1 && range.start + range.count <= usize::MAX
}

/// Whether the 1-based line is one of the lines of a range.
pub open spec fn has_line(range: LineRange, line: int) -> bool {
    range.start <= line && line < range.start + range.count
}

/// A row is changed exactly where its line, which is one more, is a line of some range.
pub proof fn lemma_changed_rows_are_changed_lines(row: int, ranges: Seq<LineRange>)
    requires
        forall|i: int| 0 <= i < ranges.len() ==> holds_lines(#[trigger] ranges[i]),
    ensures
        row_in(row, ranges) <==> exists|i: int|
            0 <= i < ranges.len() && has_line(#[trigger] ranges[i], row + 1),
{
    if row_in(row, ranges) {
        let i = choose|i: int|
            0 <= i < ranges.len() && first_row(#[trigger] ranges[i]) <= row < end_row(ranges[i]);
        assert(holds_lines(ranges[i]));
        assert(has_line(ranges[i], row + 1));
    }
    if exists|i: int| 0 <= i < ranges.len() && has_line(#[trigger] ranges[i], row + 1) {
        let i = choose|i: int| 0 <= i < ranges.len() && has_line(#[trigger] ranges[i], row + 1);
        assert(holds_lines(ranges[i]));
        assert(first_row(ranges[i]) <= row < end_row(ranges[i]));
    }
}

/// Rows meet the ranges exactly where one of them is a changed row: every line of a range counts,
/// be it its first, its last or one between.
pub proof fn lemma_rows_meet_where_a_row_is_changed(
    first: int,
    last: int,
    ranges: Seq<LineRange>,
)
    requires
        first <= last,
        forall|i: int| 0 <= i < ranges.len() ==> holds_lines(#[trigger] ranges[i]),
    ensures
        rows_meet(first, last, ranges) <==> exists|row: int|
            first <= row <= last && #[trigger] row_in(row, ranges),
        rows_meet(first, last, ranges) <==> exists|i: int, line: int|
            0 <= i < ranges.len() && #[trigger] has_line(ranges[i], line) && first + 1 <= line
                <= last + 1,
{
    if rows_meet(first, last, ranges) {
        let i = choose|i: int|
            0 <= i < ranges.len() && first_row(#[trigger] ranges[i]) <= last && first < end_row(
                ranges[i],
            );
        assert(holds_lines(ranges[i]));
        let row = if first_row(ranges[i]) <= first {
            first
        } else {
            first_row(ranges[i])
        };
        assert(first_row(ranges[i]) <= row < end_row(ranges[i]));
        assert(row_in(row, ranges));
        assert(has_line(ranges[i], row + 1));
    }
    if exists|row: int| first <= row <= last && #[trigger] row_in(row, ranges) {
        let row = choose|row: int| first <= row <= last && #[trigger] row_in(row, ranges);
        let i = choose|i: int|
            0 <= i < ranges.len() && first_row(#[trigger] ranges[i]) <= row < end_row(ranges[i]);
        assert(first_row(ranges[i]) <= last && first < end_row(ranges[i]));
    }
    if exists|i: int, line: int|
        0 <= i < ranges.len() && #[trigger] has_line(ranges[i], line) && first + 1 <= line <= last
            + 1 {
        let (i, line) = choose|i: int, line: int|
            0 <= i < ranges.len() && #[trigger] has_line(ranges[i], line) && first + 1 <= line
                <= last + 1;
        assert(holds_lines(ranges[i]));
        assert(first_row(ranges[i]) <= last && first < end_row(ranges[i]));
    }
}

} // verus!
