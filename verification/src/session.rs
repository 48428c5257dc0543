//! The session log: an append-only file with one JSON record per line, kept
//! under the logs directory of a workspace.
use vstd::prelude::*;
use vstd::slice::{slice_subrange, slice_to_vec};

use crate::config::{join_path, joined_path, spec_logs_dir, AppConfig};
use crate::sorting::views;

verus! {

/// The byte that ends a line.
pub const NEWLINE: u8 = 10u8;

/// The byte that may come before the newline, in a CRLF line end.
pub const CARRIAGE_RETURN: u8 = 13u8;

/// Where the log of `workspace` lives: `log.jsonl` in its logs directory.
pub open spec fn spec_log_path(workspace: Seq<char>) -> Seq<char> {
    joined_path(spec_logs_dir(workspace), "log.jsonl"@)
}

/// Keeps the session log of a workspace.
pub struct SessionManager {
    log_path: String,
}

impl SessionManager {
    /// The path of the log file.
    pub closed spec fn spec_path(&self) -> Seq<char> {
        self.log_path@
    }

    /// A manager for the log of `workspace`. It only names the file: making
    /// the logs directory is left to whoever does the file I/O.
    pub fn new(workspace: &str) -> (manager: Self)
        ensures
            manager.spec_path() == spec_log_path(workspace@),
    {
        let logs_dir = AppConfig::logs_dir(workspace);
        SessionManager { log_path: join_path(logs_dir.as_str(), "log.jsonl") }
    }

    /// The path of the log file.
    pub fn log_path(&self) -> (path: &str)
        ensures
            path@ == self.spec_path(),
    {
        self.log_path.as_str()
    }
}

/// A record as it is appended to the log: its bytes and a newline.
pub fn frame_record(record: &[u8]) -> (line: Vec<u8>)
    ensures
        line@ == record@.push(NEWLINE),
{
    let mut line = slice_to_vec(record);
    line.push(NEWLINE);
    line
}

/// Where the first line of `content` ends: the index of its first newline,
/// or the length of `content` when there is none.
pub open spec fn line_end(content: Seq<u8>) -> nat
    decreases content.len(),
{
    if content.len() == 0 {
        0
    } else if content[0] == NEWLINE {
        0
    } else {
        1 + line_end(content.drop_first())
    }
}

/// A line without the carriage return that ended it, if one did.
pub open spec fn without_cr(line: Seq<u8>) -> Seq<u8> {
    if line.len() > 0 && line.last() == CARRIAGE_RETURN {
        line.drop_last()
    } else {
        line
    }
}

/// The lines of `content`, as std's `BufRead::lines` yields them: split at
/// each newline, a carriage return before the newline removed, and no line
/// after a final newline.
pub open spec fn log_lines(content: Seq<u8>) -> Seq<Seq<u8>>
    decreases content.len(),
{
    if content.len() == 0 {
        Seq::empty()
    } else {
        let end = line_end(content) as int;
        proof {
            lemma_line_end(content);
        }
        if end == content.len() {
            seq![content]
        } else {
            seq![without_cr(content.take(end))] + log_lines(content.skip(end + 1))
        }
    }
}

/// The first line of `content` ends at its first newline, or at its end.
pub proof fn lemma_line_end(content: Seq<u8>)
    ensures
        line_end(content) <= content.len(),
        forall|i: int| 0 <= i < line_end(content) ==> content[i] != NEWLINE,
        line_end(content) < content.len() ==> content[line_end(content) as int] == NEWLINE,
    decreases content.len(),
{
    if content.len() > 0 && content[0] != NEWLINE {
        lemma_line_end(content.drop_first());
        assert forall|i: int| 0 <= i < line_end(content) implies content[i] != NEWLINE by {
            if i > 0 {
                assert(content[i] == content.drop_first()[i - 1]);
            }
        }
    }
}

proof fn lemma_line_end_at(content: Seq<u8>, end: int)
    requires
        0 <= end <= content.len(),
        forall|i: int| 0 <= i < end ==> content[i] != NEWLINE,
        end < content.len() ==> content[end] == NEWLINE,
    ensures
        line_end(content) == end,
    decreases content.len(),
{
    if content.len() > 0 && content[0] != NEWLINE {
        lemma_line_end_at(content.drop_first(), end - 1);
    }
}

/// The lines of a log file's content.
pub fn split_records(content: &[u8]) -> (lines: Vec<Vec<u8>>)
    ensures
        views(lines@) == log_lines(content@),
{
    let mut lines: Vec<Vec<u8>> = Vec::new();
    let mut start: usize = 0;
    let mut i: usize = 0;
    let ghost all = content@;
    assert(all.skip(0) =~= all);
    while i < content.len()
        invariant
            all == content@,
            start <= i <= content@.len(),
            forall|k: int| start <= k < i ==> all[k] != NEWLINE,
            views(lines@) + log_lines(all.skip(start as int)) == log_lines(all),
        decreases content@.len() - i,
    {
        if content[i] == NEWLINE {
            let ghost rest = all.skip(start as int);
            proof {
                lemma_line_end_at(rest, i - start);
                assert(rest.take(i - start) =~= all.subrange(start as int, i as int));
                assert(rest.skip(i - start + 1) =~= all.skip(i + 1));
            }
            let mut line = slice_to_vec(slice_subrange(content, start, i));
            if line.len() > 0 && line[line.len() - 1] == CARRIAGE_RETURN {
                line.pop();
                assert(line@ =~= all.subrange(start as int, i as int).drop_last());
            }
            let ghost before = lines@;
            lines.push(line);
            proof {
                assert(views(lines@) =~= views(before).push(line@));
                assert(log_lines(rest) =~= seq![line@] + log_lines(all.skip(i + 1)));
                assert(views(lines@) + log_lines(all.skip(i + 1)) =~= views(before) + log_lines(
                    rest,
                ));
            }
            start = i + 1;
        }
        i = i + 1;
    }
    if start < content.len() {
        let ghost rest = all.skip(start as int);
        proof {
            lemma_line_end_at(rest, rest.len() as int);
            assert(rest =~= all.subrange(start as int, content@.len() as int));
        }
        let line = slice_to_vec(slice_subrange(content, start, content.len()));
        let ghost before = lines@;
        lines.push(line);
        assert(views(lines@) =~= views(before).push(line@));
        assert(log_lines(rest) =~= seq![line@]);
    } else {
        assert(all.skip(start as int) =~= Seq::<u8>::empty());
    }
    assert(views(lines@) =~= log_lines(all));
    lines
}

/// The bytes of the records, each framed as it is appended to the log.
pub open spec fn framed(records: Seq<Seq<u8>>) -> Seq<u8>
    decreases records.len(),
{
    if records.len() == 0 {
        Seq::empty()
    } else {
        records[0].push(NEWLINE) + framed(records.drop_first())
    }
}

/// Whether a record can be appended to the log and read back as it was: it
/// holds no newline, and does not end in a carriage return.
pub open spec fn fits_on_a_line(record: Seq<u8>) -> bool {
    &&& forall|i: int| 0 <= i < record.len() ==> record[i] != NEWLINE
    &&& !(record.len() > 0 && record.last() == CARRIAGE_RETURN)
}

/// Reading the log back gives the records that were appended to it, in the
/// order they were appended, for records that fit on a line (as JSON text
/// does, which escapes its line breaks).
pub proof fn lemma_log_reads_back_appended(records: Seq<Seq<u8>>)
    requires
        forall|i: int| 0 <= i < records.len() ==> fits_on_a_line(#[trigger] records[i]),
    ensures
        log_lines(framed(records)) == records,
    decreases records.len(),
{
    if records.len() > 0 {
        let first = records[0];
        let rest = records.drop_first();
        assert forall|i: int| 0 <= i < rest.len() implies fits_on_a_line(#[trigger] rest[i]) by {
            assert(rest[i] == records[i + 1]);
        }
        lemma_log_reads_back_appended(rest);
        let content = framed(records);
        assert(fits_on_a_line(first));
        assert(content == first.push(NEWLINE) + framed(rest));
        lemma_line_end_at(content, first.len() as int);
        assert(content.take(first.len() as int) =~= first);
        assert(content.skip(first.len() as int + 1) =~= framed(rest));
        assert(without_cr(first) == first);
        assert(log_lines(content) =~= seq![first] + rest);
        assert(records =~= seq![first] + rest);
    }
}

} // verus!
