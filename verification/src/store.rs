//! The log: one encoded record on each line, and no line ever rewritten.

use crate::lines::{ends_lines, is_one_line, lemma_lines_concat, lemma_lines_of_line, lines};
use vstd::prelude::*;

verus! {

/// The line that holds an encoded record in the log: the record, then a
/// line feed.
pub fn log_line(record: &str) -> (line: String)
    ensures
        line@ == record@ + seq!['\n'],
{
    let mut line = record.to_owned();
    line.push('\n');
    line
}

/// Appending the line of a record to a log of whole lines keeps every line
/// that the log had, in its place, and adds the record as one line behind
/// them. This holds of a record without a line feed in it and without a
/// carriage return at its end.
pub proof fn lemma_append_adds_one_line(log: Seq<char>, record: Seq<char>)
    requires
        ends_lines(log),
        is_one_line(record),
        record.len() == 0 || record.last() != '\r',
    ensures
        lines(log + (record + seq!['\n'])) == lines(log).push(record),
        ends_lines(log + (record + seq!['\n'])),
{
    lemma_lines_concat(log, record + seq!['\n']);
    lemma_lines_of_line(record);
    assert(lines(log) + seq![record] =~= lines(log).push(record));
}

} // verus!
