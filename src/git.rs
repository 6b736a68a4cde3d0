//! The collector that ties one aggregation run together: the repositories
//! to walk, the index built from their entries, and paging over it.
use vstd::prelude::*;
use vstd::string::*;
use crate::model::{LogEntry, LogEntryView, SubmoduleInfo, entries_view};
use crate::collector::{CollectOutcome, Aggregation, aggregate, aggregated, skipped_count};
use crate::index::{TimestampIndex, ordered, unique_ids};
use crate::paginate::{Page, page_of, resume_page};
use crate::text::{str_eq, distinct, keys_of};

verus! {

/// A submodule as declared in the root repository's metadata; fields that
/// could not be read are `None`.
#[derive(Clone, Debug)]
pub struct DeclaredSubmodule {
    pub name: Option<String>,
    pub path: String,
    pub url: Option<String>,
    /// The commit checked out in the submodule, if it resolves.
    pub head_id: Option<String>,
}

/// A string read as optional, `unknown` when absent.
pub open spec fn or_unknown(s: Option<String>) -> Seq<char> {
    match s {
        Some(v) => v@,
        None => "unknown"@,
    }
}

fn text_or_unknown(s: &Option<String>) -> (r: String)
    ensures
        r@ == or_unknown(*s),
{
    match s {
        Some(v) => v.clone(),
        None => String::from_str("unknown"),
    }
}

/// How many entries of `s` carry the submodule label `p`.
pub open spec fn count_path(s: Seq<LogEntryView>, p: Seq<char>) -> nat
    decreases s.len(),
{
    if s.len() == 0 {
        0
    } else {
        count_path(s.drop_last(), p) + if s.last().submodule_path == p {
            1nat
        } else {
            0nat
        }
    }
}

proof fn lemma_count_path_le(s: Seq<LogEntryView>, p: Seq<char>)
    ensures
        count_path(s, p) <= s.len(),
    decreases s.len(),
{
    if s.len() > 0 {
        lemma_count_path_le(s.drop_last(), p);
    }
}

/// Gathers, aggregates, indexes and pages the commit logs of a root
/// repository and its submodules.
pub struct GitLogCollector {
    pub root_path: String,
    pub submodules: Vec<SubmoduleInfo>,
    pub timestamp_ordering: TimestampIndex,
    pub current_page: usize,
    pub page_size: usize,
    /// Whether an outside enrichment tool is available to the caller.
    pub ragit_integration: bool,
}

impl GitLogCollector {
    /// The collector is usable: pages hold at least one entry, and the
    /// index is in index order.
    pub open spec fn wf(&self) -> bool {
        self.page_size >= 1 && self.timestamp_ordering.wf()
    }

    /// A collector for the repository at `root_path`, whose declared
    /// submodules are `declared`, with an empty index. `now` stamps each
    /// discovered repository.
    pub fn new(
        root_path: String,
        page_size: usize,
        declared: &Vec<DeclaredSubmodule>,
        ragit_integration: bool,
        now: i64,
    ) -> (r: GitLogCollector)
        requires
            page_size >= 1,
        ensures
            r.wf(),
            r.root_path@ == root_path@,
            r.page_size == page_size,
            r.current_page == 0,
            r.ragit_integration == ragit_integration,
            r.timestamp_ordering@ == Seq::<LogEntryView>::empty(),
            discovered(r.submodules@, declared@, now),
    {
        let mut r = GitLogCollector {
            root_path,
            submodules: Vec::new(),
            timestamp_ordering: TimestampIndex::new(),
            current_page: 0,
            page_size,
            ragit_integration,
        };
        r.discover_submodules(declared, now);
        assert(r.submodules@.skip(0) =~= r.submodules@);
        r
    }

    /// Appends the repositories to aggregate: each declared submodule in
    /// turn (name, path, URL and checked-out commit, `unknown` where one
    /// cannot be read), then the root repository itself.
    pub fn discover_submodules(&mut self, declared: &Vec<DeclaredSubmodule>, now: i64)
        ensures
            final(self).submodules@.len() == old(self).submodules@.len() + declared@.len() + 1,
            final(self).submodules@.take(old(self).submodules@.len() as int) == old(self).submodules@,
            discovered(final(self).submodules@.skip(old(self).submodules@.len() as int), declared@, now),
            final(self).root_path == old(self).root_path,
            final(self).timestamp_ordering == old(self).timestamp_ordering,
            final(self).current_page == old(self).current_page,
            final(self).page_size == old(self).page_size,
            final(self).ragit_integration == old(self).ragit_integration,
    {
        let ghost before = self.submodules@;
        let ghost m = before.len() as int;
        let n = declared.len();
        let mut i: usize = 0;
        while i < n
            invariant
                0 <= i <= n,
                n == declared@.len(),
                before == old(self).submodules@,
                m == before.len(),
                self.submodules@.len() == m + i,
                self.submodules@.take(m) == before,
                self.root_path == old(self).root_path,
                self.timestamp_ordering == old(self).timestamp_ordering,
                self.current_page == old(self).current_page,
                self.page_size == old(self).page_size,
                self.ragit_integration == old(self).ragit_integration,
                forall|k: int| 0 <= k < i ==> declared_as(#[trigger] self.submodules@[m + k], declared@[k], now),
            decreases n - i,
        {
            let d = &declared[i];
            let info = SubmoduleInfo {
                name: text_or_unknown(&d.name),
                path: d.path.clone(),
                url: text_or_unknown(&d.url),
                commit_hash: text_or_unknown(&d.head_id),
                last_updated: now,
            };
            let ghost prev = self.submodules@;
            self.submodules.push(info);
            assert(self.submodules@.take(m) =~= prev.take(m));
            i = i + 1;
        }
        let root = SubmoduleInfo {
            name: String::from_str("root"),
            path: String::from_str("."),
            url: String::from_str("local"),
            commit_hash: String::from_str("HEAD"),
            last_updated: now,
        };
        let ghost prev = self.submodules@;
        self.submodules.push(root);
        proof {
            assert(self.submodules@.take(m) =~= prev.take(m));
            let added = self.submodules@.skip(m);
            assert forall|k: int| 0 <= k < declared@.len() implies declared_as(#[trigger] added[k], declared@[k], now) by {
                assert(added[k] == self.submodules@[m + k]);
            }
            assert(added.last() == self.submodules@.last());
        }
    }

    /// Gathers the entries of every discovered repository, given how the
    /// walk of each ended (`outcomes[k]` for `submodules[k]`). Repositories
    /// that are missing or fail are skipped and counted.
    pub fn collect_all_submodule_logs(&self, outcomes: &Vec<CollectOutcome>) -> (r: Aggregation)
        requires
            outcomes@.len() == self.submodules@.len(),
            aggregated(self.submodules@, outcomes@, outcomes@.len() as nat).len() <= u64::MAX,
        ensures
            entries_view(r.entries@) == aggregated(self.submodules@, outcomes@, outcomes@.len() as nat),
            r.skipped == skipped_count(outcomes@, outcomes@.len() as nat),
            forall|i: int| 0 <= i < r.entries@.len() ==> (#[trigger] r.entries@[i]).id == i,
            unique_ids(entries_view(r.entries@)),
    {
        let r = aggregate(&self.submodules, outcomes);
        assert forall|i: int, j: int| 0 <= i < j < r.entries@.len() implies (#[trigger] entries_view(r.entries@)[i]).id
            != (#[trigger] entries_view(r.entries@)[j]).id by {
            assert(r.entries@[i].id == i && r.entries@[j].id == j);
        }
        r
    }

    /// Rebuilds the index from `logs`, dropping what it held before.
    pub fn order_by_timestamp(&mut self, logs: &[LogEntry]) -> (r: usize)
        ensures
            final(self).timestamp_ordering@ == ordered(entries_view(logs@)),
            final(self).timestamp_ordering.wf(),
            r == logs@.len(),
            final(self).root_path == old(self).root_path,
            final(self).submodules == old(self).submodules,
            final(self).current_page == old(self).current_page,
            final(self).page_size == old(self).page_size,
            final(self).ragit_integration == old(self).ragit_integration,
    {
        self.timestamp_ordering = TimestampIndex::build(logs);
        proof {
            crate::index::lemma_ordered(entries_view(logs@));
        }
        self.timestamp_ordering.len()
    }

    /// Page `page` of the index, `page_size` entries each.
    pub fn paginate(&self, page: usize) -> (r: Page)
        requires
            self.wf(),
        ensures
            r@ == page_of(self.timestamp_ordering@, page, self.page_size),
    {
        self.timestamp_ordering.paginate(page, self.page_size)
    }

    /// The page to resume at from `timestamp`.
    pub fn continue_from_timestamp(&self, timestamp: i64) -> (r: Page)
        requires
            self.wf(),
        ensures
            r@ == page_of(
                self.timestamp_ordering@,
                resume_page(self.timestamp_ordering@, timestamp, self.page_size) as usize,
                self.page_size,
            ),
    {
        self.timestamp_ordering.continue_from_timestamp(timestamp, self.page_size)
    }

    /// The number of indexed entries of each submodule label, each label
    /// once, labels in order of first appearance in the index.
    pub fn get_submodule_stats(&self) -> (r: Vec<(String, usize)>)
        ensures
            forall|k: int|
                0 <= k < r@.len() ==> #[trigger] r@[k].1 == count_path(self.timestamp_ordering@, r@[k].0@)
                    && r@[k].1 >= 1,
            forall|k1: int, k2: int|
                0 <= k1 < k2 < r@.len() ==> #[trigger] r@[k1].0@ != #[trigger] r@[k2].0@,
            forall|i: int|
                0 <= i < self.timestamp_ordering@.len() ==> has_label(
                    r@,
                    (#[trigger] self.timestamp_ordering@[i]).submodule_path,
                ),
            keys_of(r@) == distinct(labels(self.timestamp_ordering@)),
    {
        let ghost s = self.timestamp_ordering@;
        let n = self.timestamp_ordering.len();
        let mut stats: Vec<(String, usize)> = Vec::new();
        let mut i: usize = 0;
        while i < n
            invariant
                0 <= i <= n,
                n == s.len(),
                s == self.timestamp_ordering@,
                forall|k: int|
                    0 <= k < stats@.len() ==> #[trigger] stats@[k].1 == count_path(s.subrange(0, i as int), stats@[k].0@)
                        && stats@[k].1 >= 1,
                forall|k1: int, k2: int|
                    0 <= k1 < k2 < stats@.len() ==> #[trigger] stats@[k1].0@ != #[trigger] stats@[k2].0@,
                forall|m: int| 0 <= m < i ==> has_label(stats@, (#[trigger] s[m]).submodule_path),
                keys_of(stats@) == distinct(labels(s).take(i as int)),
            decreases n - i,
        {
            let e = self.timestamp_ordering.get(i);
            let ghost p = e@.submodule_path;
            let ghost pre = s.subrange(0, i as int);
            let ghost next = s.subrange(0, i + 1);
            proof {
                assert(next.drop_last() =~= pre);
                assert(next.last() == s[i as int]);
                assert forall|q: Seq<char>| #[trigger] count_path(next, q) == count_path(pre, q) + if q == p {
                    1nat
                } else {
                    0nat
                } by {}
                let lt = labels(s).take(i + 1);
                assert(lt.drop_last() =~= labels(s).take(i as int));
                assert(lt.last() == p);
            }
            let found = find_label(&stats, &e.submodule_path);
            if let Some(k) = found {
                proof {
                    lemma_count_path_le(pre, p);
                }
                let name = stats[k].0.clone();
                let c = stats[k].1;
                let ghost old_stats = stats@;
                stats.set(k, (name, c + 1));
                proof {
                    assert(keys_of(old_stats)[k as int] == p);
                    assert(keys_of(stats@) =~= keys_of(old_stats));
                    assert forall|m: int| 0 <= m < i + 1 implies has_label(stats@, (#[trigger] s[m]).submodule_path) by {
                        if m < i {
                            assert(has_label(old_stats, s[m].submodule_path));
                            let k3 = choose|k3: int| 0 <= k3 < old_stats.len() && #[trigger] old_stats[k3].0@ == s[m].submodule_path;
                            assert(stats@[k3].0@ == s[m].submodule_path);
                        } else {
                            assert(stats@[k as int].0@ == s[m].submodule_path);
                        }
                    }
                }
            } else {
                let ghost old_stats = stats@;
                stats.push((e.submodule_path.clone(), 1));
                proof {
                    assert(keys_of(stats@) =~= keys_of(old_stats).push(p));
                    if keys_of(old_stats).contains(p) {
                        let k3 = choose|k3: int| 0 <= k3 < keys_of(old_stats).len() && keys_of(old_stats)[k3] == p;
                        assert(old_stats[k3].0@ == p);
                    }
                    assert(count_path(pre, p) == 0) by {
                        lemma_count_absent(pre, p);
                        assert forall|m: int| 0 <= m < pre.len() implies (#[trigger] pre[m]).submodule_path != p by {
                            assert(has_label(old_stats, s[m].submodule_path));
                            let k3 = choose|k3: int| 0 <= k3 < old_stats.len() && #[trigger] old_stats[k3].0@ == s[m].submodule_path;
                        }
                    }
                    assert forall|m: int| 0 <= m < i + 1 implies has_label(stats@, (#[trigger] s[m]).submodule_path) by {
                        if m < i {
                            assert(has_label(old_stats, s[m].submodule_path));
                            let k3 = choose|k3: int| 0 <= k3 < old_stats.len() && #[trigger] old_stats[k3].0@ == s[m].submodule_path;
                            assert(stats@[k3].0@ == s[m].submodule_path);
                        } else {
                            assert(stats@[old_stats.len() as int].0@ == s[m].submodule_path);
                        }
                    }
                }
            }
            i = i + 1;
        }
        assert(s.subrange(0, n as int) =~= s);
        assert(labels(s).take(n as int) =~= labels(s));
        stats
    }
}

/// Position of the label `p` among the counted labels.
fn find_label(stats: &Vec<(String, usize)>, p: &String) -> (r: Option<usize>)
    ensures
        match r {
            Some(k) => k < stats@.len() && stats@[k as int].0@ == p@,
            None => forall|j: int| 0 <= j < stats@.len() ==> #[trigger] stats@[j].0@ != p@,
        },
{
    let mut k: usize = 0;
    while k < stats.len()
        invariant
            0 <= k <= stats@.len(),
            forall|j: int| 0 <= j < k ==> #[trigger] stats@[j].0@ != p@,
        decreases stats@.len() - k,
    {
        if str_eq(stats[k].0.as_str(), p.as_str()) {
            return Some(k);
        }
        k = k + 1;
    }
    None
}

proof fn lemma_count_absent(s: Seq<LogEntryView>, p: Seq<char>)
    ensures
        (forall|m: int| 0 <= m < s.len() ==> (#[trigger] s[m]).submodule_path != p) ==> count_path(s, p) == 0,
    decreases s.len(),
{
    if s.len() > 0 {
        lemma_count_absent(s.drop_last(), p);
        if forall|m: int| 0 <= m < s.len() ==> (#[trigger] s[m]).submodule_path != p {
            assert forall|m: int| 0 <= m < s.drop_last().len() implies (#[trigger] s.drop_last()[m]).submodule_path != p by {
                assert(s.drop_last()[m] == s[m]);
            }
        }
    }
}

/// The submodule labels of entries, in order.
pub open spec fn labels(s: Seq<LogEntryView>) -> Seq<Seq<char>> {
    s.map_values(|e: LogEntryView| e.submodule_path)
}

/// Some counted label is `p`.
pub open spec fn has_label(r: Seq<(String, usize)>, p: Seq<char>) -> bool {
    exists|k: int| 0 <= k < r.len() && #[trigger] r[k].0@ == p
}

/// `info` is the record discovered for the declared submodule `d`.
pub open spec fn declared_as(info: SubmoduleInfo, d: DeclaredSubmodule, now: i64) -> bool {
    &&& info.name@ == or_unknown(d.name)
    &&& info.path@ == d.path@
    &&& info.url@ == or_unknown(d.url)
    &&& info.commit_hash@ == or_unknown(d.head_id)
    &&& info.last_updated == now
}

/// `subs` lists each declared submodule in order, then the root repository.
pub open spec fn discovered(subs: Seq<SubmoduleInfo>, declared: Seq<DeclaredSubmodule>, now: i64) -> bool {
    &&& subs.len() == declared.len() + 1
    &&& forall|k: int| 0 <= k < declared.len() ==> declared_as(#[trigger] subs[k], declared[k], now)
    &&& subs.last().name@ == "root"@
    &&& subs.last().path@ == "."@
    &&& subs.last().url@ == "local"@
    &&& subs.last().commit_hash@ == "HEAD"@
    &&& subs.last().last_updated == now
}

} // verus!
