//! Turning what a repository backend read into log entries, and gathering
//! the entries of every repository of a run.
use vstd::prelude::*;
use crate::model::{DiffStats, LogEntry, LogEntryView, SubmoduleInfo, entries_view, strings_view, copy_strings};

verus! {

/// What the repository backend read for one commit. Metadata that could not
/// be read is `None`; so is the diff when it could not be computed.
#[derive(Clone, Debug)]
pub struct CommitRecord {
    pub commit_hash: String,
    pub author: Option<String>,
    pub message: Option<String>,
    /// Commit time (not author time), in seconds since the Unix epoch, UTC.
    pub commit_time: i64,
    /// Statistics and changed paths against the first parent.
    pub diff: Option<(DiffStats, Vec<String>)>,
}

/// How the walk of one repository ended.
#[derive(Clone, Debug)]
pub enum CollectOutcome {
    /// The repository's path does not exist.
    PathMissing,
    /// The repository could not be opened or walked.
    Failed,
    /// The commits reachable from its head, in the backend's order.
    Collected(Vec<CommitRecord>),
}

/// A string read as optional, empty when absent.
pub open spec fn or_empty(s: Option<String>) -> Seq<char> {
    match s {
        Some(v) => v@,
        None => Seq::empty(),
    }
}

/// The entry that a commit record becomes.
pub open spec fn normalized(rec: CommitRecord, label: Seq<char>, id: u64) -> LogEntryView {
    LogEntryView {
        id,
        timestamp: rec.commit_time,
        commit_hash: rec.commit_hash@,
        author: or_empty(rec.author),
        message: or_empty(rec.message),
        submodule_path: label,
        files_changed: match rec.diff {
            Some(d) => strings_view(d.1@),
            None => Seq::empty(),
        },
        diff_stats: match rec.diff {
            Some(d) => d.0,
            None => DiffStats { insertions: 0, deletions: 0, files_changed: 0 },
        },
    }
}

/// The entries of one repository, numbered from `base` on.
pub open spec fn repo_entries(recs: Seq<CommitRecord>, label: Seq<char>, base: int) -> Seq<LogEntryView> {
    Seq::new(recs.len(), |j: int| normalized(recs[j], label, (base + j) as u64))
}

/// The entries of the first `k` repositories, one after another, numbered
/// from 0.
pub open spec fn aggregated(subs: Seq<SubmoduleInfo>, outs: Seq<CollectOutcome>, k: nat) -> Seq<LogEntryView>
    decreases k,
{
    if k == 0 {
        Seq::empty()
    } else {
        let prev = aggregated(subs, outs, (k - 1) as nat);
        match outs[k - 1] {
            CollectOutcome::Collected(recs) => prev + repo_entries(recs@, subs[k - 1].name@, prev.len() as int),
            _ => prev,
        }
    }
}

/// How many of the first `k` repositories were skipped.
pub open spec fn skipped_count(outs: Seq<CollectOutcome>, k: nat) -> nat
    decreases k,
{
    if k == 0 {
        0
    } else {
        skipped_count(outs, (k - 1) as nat) + match outs[k - 1] {
            CollectOutcome::Collected(_) => 0nat,
            _ => 1nat,
        }
    }
}

/// The result of one aggregation run.
pub struct Aggregation {
    /// Every collected entry, unordered across repositories.
    pub entries: Vec<LogEntry>,
    /// Repositories whose path was missing or whose walk failed.
    pub skipped: usize,
}

fn optional_text(s: &Option<String>) -> (r: String)
    ensures
        r@ == or_empty(*s),
{
    match s {
        Some(v) => v.clone(),
        None => String::new(),
    }
}

/// The log entry for one commit record: missing author or message become
/// empty, a missing diff becomes empty statistics with no changed files.
pub fn create_log_entry(rec: &CommitRecord, label: &String, id: u64) -> (r: LogEntry)
    ensures
        r@ == normalized(*rec, label@, id),
{
    let (diff_stats, files_changed) = match &rec.diff {
        Some(d) => (d.0, copy_strings(&d.1)),
        None => (DiffStats::empty(), Vec::new()),
    };
    let r = LogEntry {
        id,
        timestamp: rec.commit_time,
        commit_hash: rec.commit_hash.clone(),
        author: optional_text(&rec.author),
        message: optional_text(&rec.message),
        submodule_path: label.clone(),
        files_changed,
        diff_stats,
    };
    assert(r@.files_changed =~= normalized(*rec, label@, id).files_changed);
    r
}

/// Gathers the entries of every repository: those of a repository whose
/// walk ended in `Collected` are numbered in turn and labelled with its
/// name; the others are counted as skipped. The run never fails.
pub fn aggregate(subs: &Vec<SubmoduleInfo>, outcomes: &Vec<CollectOutcome>) -> (r: Aggregation)
    requires
        subs@.len() == outcomes@.len(),
        aggregated(subs@, outcomes@, outcomes@.len() as nat).len() <= u64::MAX,
    ensures
        entries_view(r.entries@) == aggregated(subs@, outcomes@, outcomes@.len() as nat),
        r.skipped == skipped_count(outcomes@, outcomes@.len() as nat),
        forall|i: int| 0 <= i < r.entries@.len() ==> (#[trigger] r.entries@[i]).id == i,
{
    let mut entries: Vec<LogEntry> = Vec::new();
    let mut skipped: usize = 0;
    let n = outcomes.len();
    let mut i: usize = 0;
    assert(entries_view(entries@) =~= Seq::<LogEntryView>::empty());
    while i < n
        invariant
            0 <= i <= n,
            n == outcomes@.len(),
            subs@.len() == n,
            aggregated(subs@, outcomes@, n as nat).len() <= u64::MAX,
            entries_view(entries@) == aggregated(subs@, outcomes@, i as nat),
            skipped == skipped_count(outcomes@, i as nat),
            skipped <= i,
            forall|k: int| 0 <= k < entries@.len() ==> (#[trigger] entries@[k]).id == k,
        decreases n - i,
    {
        proof {
            lemma_aggregated_grows(subs@, outcomes@, (i + 1) as nat, n as nat);
        }
        match &outcomes[i] {
            CollectOutcome::Collected(recs) => {
                let ghost base = entries@.len();
                let ghost prefix = entries_view(entries@);
                let mut j: usize = 0;
                while j < recs.len()
                    invariant
                        0 <= j <= recs@.len(),
                        i < n,
                        n == outcomes@.len(),
                        subs@.len() == n,
                        outcomes@[i as int] == CollectOutcome::Collected(*recs),
                        base + recs@.len() <= u64::MAX,
                        entries_view(entries@) == prefix + repo_entries(recs@.subrange(0, j as int), subs@[i as int].name@, base as int),
                        entries@.len() == base + j,
                        forall|k: int| 0 <= k < entries@.len() ==> (#[trigger] entries@[k]).id == k,
                    decreases recs@.len() - j,
                {
                    let e = create_log_entry(&recs[j], &subs[i].name, entries.len() as u64);
                    let ghost before = entries@;
                    entries.push(e);
                    proof {
                        assert(entries_view(entries@) =~= entries_view(before).push(e@));
                        assert(repo_entries(recs@.subrange(0, j + 1), subs@[i as int].name@, base as int) =~= repo_entries(
                            recs@.subrange(0, j as int),
                            subs@[i as int].name@,
                            base as int,
                        ).push(e@));
                    }
                    j = j + 1;
                }
                proof {
                    assert(recs@.subrange(0, recs@.len() as int) =~= recs@);
                }
            },
            _ => {
                skipped = skipped + 1;
            },
        }
        i = i + 1;
    }
    Aggregation { entries, skipped }
}

proof fn lemma_aggregated_grows(subs: Seq<SubmoduleInfo>, outs: Seq<CollectOutcome>, k: nat, n: nat)
    requires
        k <= n,
    ensures
        aggregated(subs, outs, k).len() <= aggregated(subs, outs, n).len(),
    decreases n - k,
{
    if k < n {
        lemma_aggregated_grows(subs, outs, k, (n - 1) as nat);
    }
}

/// The commit records of an outcome (none unless collected).
pub open spec fn outcome_records(o: CollectOutcome) -> Seq<CommitRecord> {
    match o {
        CollectOutcome::Collected(recs) => recs@,
        _ => Seq::empty(),
    }
}

/// Some entry of `agg` carries the commit of `rec`, labelled `name`.
pub open spec fn holds_commit(agg: Seq<LogEntryView>, name: Seq<char>, rec: CommitRecord) -> bool {
    exists|i: int|
        0 <= i < agg.len() && (#[trigger] agg[i]).commit_hash == rec.commit_hash@ && agg[i].submodule_path == name
}

/// Some collected repository among the first `k` is named `name`.
pub open spec fn collected_name(subs: Seq<SubmoduleInfo>, outs: Seq<CollectOutcome>, k: nat, name: Seq<char>) -> bool {
    exists|m: int| 0 <= m < k && (#[trigger] outs[m]) is Collected && subs[m].name@ == name
}

/// Partial failure costs only the failed repositories: whatever happened to
/// the others, every commit of a collected repository is in the
/// aggregation, labelled with that repository's name, and every entry is
/// labelled with the name of a collected repository (so none with the name
/// of a missing one, when names differ).
pub proof fn law_partial_failure(subs: Seq<SubmoduleInfo>, outs: Seq<CollectOutcome>, k: nat)
    requires
        k <= outs.len(),
        outs.len() == subs.len(),
    ensures
        forall|m: int, j: int|
            0 <= m < k && 0 <= j < outcome_records(outs[m]).len() ==> holds_commit(
                aggregated(subs, outs, k),
                subs[m].name@,
                #[trigger] outcome_records(outs[m])[j],
            ),
        forall|i: int|
            0 <= i < aggregated(subs, outs, k).len() ==> collected_name(
                subs,
                outs,
                k,
                (#[trigger] aggregated(subs, outs, k)[i]).submodule_path,
            ),
    decreases k,
{
    if k > 0 {
        law_partial_failure(subs, outs, (k - 1) as nat);
        let prev = aggregated(subs, outs, (k - 1) as nat);
        let cur = aggregated(subs, outs, k);
        assert forall|m: int, j: int|
            0 <= m < k && 0 <= j < outcome_records(outs[m]).len() implies holds_commit(
                cur,
                subs[m].name@,
                #[trigger] outcome_records(outs[m])[j],
            ) by {
            let rec = outcome_records(outs[m])[j];
            if m < k - 1 {
                assert(holds_commit(prev, subs[m].name@, rec));
                let i = choose|i: int|
                    0 <= i < prev.len() && (#[trigger] prev[i]).commit_hash == rec.commit_hash@ && prev[i].submodule_path
                        == subs[m].name@;
                assert(cur[i] == prev[i]);
            } else {
                let i = prev.len() + j;
                assert(cur[i] == normalized(rec, subs[m].name@, (prev.len() + j) as u64));
            }
        }
        assert forall|i: int| 0 <= i < cur.len() implies collected_name(
            subs,
            outs,
            k,
            (#[trigger] cur[i]).submodule_path,
        ) by {
            if i < prev.len() {
                assert(cur[i] == prev[i]);
                assert(collected_name(subs, outs, (k - 1) as nat, prev[i].submodule_path));
                let m = choose|m: int|
                    0 <= m < k - 1 && (#[trigger] outs[m]) is Collected && subs[m].name@ == prev[i].submodule_path;
                assert(outs[m] is Collected);
            } else {
                assert(outs[k - 1] is Collected);
                assert(cur[i].submodule_path == subs[k - 1].name@);
            }
        }
    }
}

} // verus!
