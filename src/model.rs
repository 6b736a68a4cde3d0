//! The records that flow through aggregation, indexing and pagination.
use vstd::prelude::*;

verus! {

/// Line and file counts of one commit's diff against its first parent
/// (or against an empty tree for a root commit).
#[derive(Clone, Copy, Debug, PartialEq, Eq, Structural)]
pub struct DiffStats {
    pub insertions: usize,
    pub deletions: usize,
    pub files_changed: usize,
}

impl DiffStats {
    /// The statistics recorded for a commit whose diff could not be computed.
    pub fn empty() -> (r: DiffStats)
        ensures
            r.insertions == 0 && r.deletions == 0 && r.files_changed == 0,
    {
        DiffStats { insertions: 0, deletions: 0, files_changed: 0 }
    }
}

/// One commit of one repository, normalised. Timestamps are seconds since
/// the Unix epoch, in UTC.
#[derive(Clone, Debug)]
pub struct LogEntry {
    pub id: u64,
    pub timestamp: i64,
    pub commit_hash: String,
    pub author: String,
    pub message: String,
    pub submodule_path: String,
    pub files_changed: Vec<String>,
    pub diff_stats: DiffStats,
}

/// The mathematical value of a `LogEntry`.
pub struct LogEntryView {
    pub id: u64,
    pub timestamp: i64,
    pub commit_hash: Seq<char>,
    pub author: Seq<char>,
    pub message: Seq<char>,
    pub submodule_path: Seq<char>,
    pub files_changed: Seq<Seq<char>>,
    pub diff_stats: DiffStats,
}

/// The character sequences of a list of strings.
pub open spec fn strings_view(s: Seq<String>) -> Seq<Seq<char>> {
    s.map_values(|x: String| x@)
}

impl View for LogEntry {
    type V = LogEntryView;

    open spec fn view(&self) -> LogEntryView {
        LogEntryView {
            id: self.id,
            timestamp: self.timestamp,
            commit_hash: self.commit_hash@,
            author: self.author@,
            message: self.message@,
            submodule_path: self.submodule_path@,
            files_changed: strings_view(self.files_changed@),
            diff_stats: self.diff_stats,
        }
    }
}

/// The values of a list of log entries.
pub open spec fn entries_view(s: Seq<LogEntry>) -> Seq<LogEntryView> {
    s.map_values(|e: LogEntry| e@)
}

/// Copies a list of strings.
pub fn copy_strings(v: &Vec<String>) -> (r: Vec<String>)
    ensures
        strings_view(r@) == strings_view(v@),
{
    let r = v.clone();
    assert(strings_view(r@) =~= strings_view(v@));
    r
}

impl LogEntry {
    /// A copy with the same value.
    pub fn duplicate(&self) -> (r: LogEntry)
        ensures
            r@ == self@,
    {
        LogEntry {
            id: self.id,
            timestamp: self.timestamp,
            commit_hash: self.commit_hash.clone(),
            author: self.author.clone(),
            message: self.message.clone(),
            submodule_path: self.submodule_path.clone(),
            files_changed: copy_strings(&self.files_changed),
            diff_stats: self.diff_stats,
        }
    }
}

/// One repository taking part in an aggregation: a declared submodule, or
/// the root repository itself (named `root`, at path `.`).
#[derive(Clone, Debug)]
pub struct SubmoduleInfo {
    pub name: String,
    pub path: String,
    pub url: String,
    pub commit_hash: String,
    pub last_updated: i64,
}

} // verus!
