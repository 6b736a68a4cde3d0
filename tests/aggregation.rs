use unified_knowledge::collector::{aggregate, create_log_entry, CollectOutcome, CommitRecord};
use unified_knowledge::git::{DeclaredSubmodule, GitLogCollector};
use unified_knowledge::index::TimestampIndex;
use unified_knowledge::model::{DiffStats, LogEntry};

fn record(hash: &str, time: i64) -> CommitRecord {
    CommitRecord {
        commit_hash: hash.to_string(),
        author: Some("dev".to_string()),
        message: Some(format!("commit {}", hash)),
        commit_time: time,
        diff: Some((DiffStats { insertions: 1, deletions: 0, files_changed: 1 }, vec!["a.rs".to_string()])),
    }
}

fn declared(name: &str, path: &str) -> DeclaredSubmodule {
    DeclaredSubmodule {
        name: Some(name.to_string()),
        path: path.to_string(),
        url: Some(format!("https://example.org/{}", name)),
        head_id: Some("abc".to_string()),
    }
}

/// Three repositories (two submodules and the root) with 5, 3 and 2
/// commits at distinct times.
fn three_repos() -> (GitLogCollector, Vec<CollectOutcome>) {
    let decl = vec![declared("alpha", "libs/alpha"), declared("beta", "libs/beta")];
    let collector = GitLogCollector::new("/repo".to_string(), 4, &decl, false, 1000);
    let a: Vec<CommitRecord> = (0..5).map(|i| record(&format!("a{}", i), 100 + 3 * i)).collect();
    let b: Vec<CommitRecord> = (0..3).map(|i| record(&format!("b{}", i), 101 + 3 * i)).collect();
    let r: Vec<CommitRecord> = (0..2).map(|i| record(&format!("r{}", i), 102 + 3 * i)).collect();
    let outcomes = vec![CollectOutcome::Collected(a), CollectOutcome::Collected(b), CollectOutcome::Collected(r)];
    (collector, outcomes)
}

#[test]
fn three_repositories_paged_by_four() {
    let (mut collector, outcomes) = three_repos();
    let agg = collector.collect_all_submodule_logs(&outcomes);
    assert_eq!(agg.entries.len(), 10);
    assert_eq!(agg.skipped, 0);
    assert_eq!(collector.order_by_timestamp(&agg.entries), 10);

    let first = collector.paginate(1);
    assert_eq!(first.items.len(), 4);
    assert_eq!(first.total_pages, 3);
    assert!(first.navigation.can_continue);
    assert!(!first.navigation.can_go_back);

    let last = collector.paginate(3);
    assert_eq!(last.items.len(), 2);
    assert!(!last.navigation.can_continue);
    assert!(last.navigation.can_go_back);
    assert_eq!(last.total_pages, 3);
    assert_eq!(last.timestamp_range, Some((109, 112)));
    assert_eq!(last.navigation.previous_timestamp, Some(107));
    assert_eq!(last.navigation.next_timestamp, None);
}

#[test]
fn missing_submodule_is_skipped() {
    let (collector, mut outcomes) = three_repos();
    outcomes[1] = CollectOutcome::PathMissing;
    let agg = collector.collect_all_submodule_logs(&outcomes);
    assert_eq!(agg.entries.len(), 7);
    assert_eq!(agg.skipped, 1);
    assert!(agg.entries.iter().all(|e| e.submodule_path != "beta"));
    let ids: Vec<u64> = agg.entries.iter().map(|e| e.id).collect();
    assert_eq!(ids, (0..7).collect::<Vec<u64>>());
}

#[test]
fn pages_cover_the_index() {
    let (mut collector, outcomes) = three_repos();
    let agg = collector.collect_all_submodule_logs(&outcomes);
    collector.order_by_timestamp(&agg.entries);
    for size in 1..12usize {
        let index = &collector.timestamp_ordering;
        let total = index.paginate(1, size).total_pages;
        let mut seen: Vec<i64> = Vec::new();
        for page in 1..=total {
            seen.extend(index.paginate(page, size).items.iter().map(|e| e.timestamp));
        }
        assert_eq!(seen, vec![100, 101, 102, 103, 104, 105, 106, 107, 109, 112]);
    }
}

#[test]
fn page_past_the_end_is_empty() {
    let (mut collector, outcomes) = three_repos();
    let agg = collector.collect_all_submodule_logs(&outcomes);
    collector.order_by_timestamp(&agg.entries);
    let page = collector.paginate(9);
    assert!(page.items.is_empty());
    assert_eq!(page.timestamp_range, None);
    assert_eq!(page.page_number, 9);
    assert!(page.navigation.can_go_back);
    assert_eq!(page.navigation.previous_timestamp, None);
    let huge = collector.timestamp_ordering.paginate(usize::MAX, usize::MAX);
    assert!(huge.items.is_empty());
    assert_eq!(huge.total_pages, 1);
}

#[test]
fn resumption_matches_direct_paging() {
    let (mut collector, outcomes) = three_repos();
    let agg = collector.collect_all_submodule_logs(&outcomes);
    collector.order_by_timestamp(&agg.entries);
    let resumed = collector.continue_from_timestamp(108);
    assert_eq!(resumed.page_number, 3);
    assert_eq!(resumed.items[0].timestamp, 109);
    let direct = collector.paginate(3);
    assert_eq!(resumed.items.len(), direct.items.len());
    let resumed = collector.continue_from_timestamp(104);
    assert_eq!(resumed.page_number, 2);
    assert_eq!(resumed.items[0].timestamp, 104);
    let resumed = collector.continue_from_timestamp(105);
    assert_eq!(resumed.page_number, 2);
    assert!(resumed.items.iter().any(|e| e.timestamp == 105));
    let end = collector.continue_from_timestamp(999);
    assert_eq!(end.page_number, 3);
    let start = collector.continue_from_timestamp(-5);
    assert_eq!(start.page_number, 1);
}

#[test]
fn equal_timestamps_are_all_kept_in_key_order() {
    let mk = |path: &str, hash: &str, t: i64| LogEntry {
        id: 0,
        timestamp: t,
        commit_hash: hash.to_string(),
        author: String::new(),
        message: String::new(),
        submodule_path: path.to_string(),
        files_changed: Vec::new(),
        diff_stats: DiffStats::empty(),
    };
    let logs = vec![mk("b", "2", 5), mk("a", "9", 5), mk("b", "1", 5), mk("a", "9", 1)];
    let logs: Vec<LogEntry> = logs.into_iter().enumerate().map(|(i, mut e)| { e.id = i as u64; e }).collect();
    let index = TimestampIndex::build(&logs);
    assert_eq!(index.len(), 4);
    let keys: Vec<(i64, String, String)> = (0..4)
        .map(|i| {
            let e = index.get(i);
            (e.timestamp, e.submodule_path.clone(), e.commit_hash.clone())
        })
        .collect();
    assert_eq!(
        keys,
        vec![
            (1, "a".to_string(), "9".to_string()),
            (5, "a".to_string(), "9".to_string()),
            (5, "b".to_string(), "1".to_string()),
            (5, "b".to_string(), "2".to_string()),
        ]
    );
    let again = TimestampIndex::build(&logs);
    assert_eq!(again.get(2).commit_hash, index.get(2).commit_hash);
}

#[test]
fn discovery_adds_root_last() {
    let decl = vec![DeclaredSubmodule { name: None, path: "x".to_string(), url: None, head_id: None }];
    let c = GitLogCollector::new("/r".to_string(), 2, &decl, true, 77);
    assert_eq!(c.submodules.len(), 2);
    assert_eq!(c.submodules[0].name, "unknown");
    assert_eq!(c.submodules[0].commit_hash, "unknown");
    assert_eq!(c.submodules[0].last_updated, 77);
    assert_eq!(c.submodules[1].name, "root");
    assert_eq!(c.submodules[1].path, ".");
    assert_eq!(c.submodules[1].url, "local");
    assert_eq!(c.submodules[1].commit_hash, "HEAD");
}

#[test]
fn missing_metadata_degrades_to_defaults() {
    let rec = CommitRecord {
        commit_hash: "ff".to_string(),
        author: None,
        message: None,
        commit_time: 42,
        diff: None,
    };
    let e = create_log_entry(&rec, &"lib".to_string(), 7);
    assert_eq!(e.author, "");
    assert_eq!(e.message, "");
    assert_eq!(e.diff_stats, DiffStats::empty());
    assert!(e.files_changed.is_empty());
    assert_eq!(e.id, 7);
    assert_eq!(e.submodule_path, "lib");
    assert_eq!(e.timestamp, 42);
}

#[test]
fn stats_count_per_submodule() {
    let (mut collector, mut outcomes) = three_repos();
    outcomes[0] = CollectOutcome::Failed;
    let agg = aggregate(&collector.submodules, &outcomes);
    collector.order_by_timestamp(&agg.entries);
    let mut stats = collector.get_submodule_stats();
    stats.sort();
    assert_eq!(stats, vec![("beta".to_string(), 3), ("root".to_string(), 2)]);
}

#[test]
fn rebuilding_from_permuted_input_gives_same_order() {
    let (collector, outcomes) = three_repos();
    let agg = collector.collect_all_submodule_logs(&outcomes);
    let mut reversed = agg.entries.clone();
    reversed.reverse();
    let a = TimestampIndex::build(&agg.entries);
    let b = TimestampIndex::build(&reversed);
    assert_eq!(a.len(), b.len());
    for i in 0..a.len() {
        assert_eq!(a.get(i).timestamp, b.get(i).timestamp);
        assert_eq!(a.get(i).commit_hash, b.get(i).commit_hash);
    }
    let pa = a.paginate(2, 3);
    let pb = b.paginate(2, 3);
    assert_eq!(pa.navigation, pb.navigation);
    assert_eq!(pa.timestamp_range, pb.timestamp_range);
    assert_eq!(pa.items.len(), pb.items.len());
}

#[test]
fn full_key_ties_are_broken_by_id() {
    let mk = |id: u64, msg: &str| LogEntry {
        id,
        timestamp: 7,
        commit_hash: "same".to_string(),
        author: String::new(),
        message: msg.to_string(),
        submodule_path: "lib".to_string(),
        files_changed: Vec::new(),
        diff_stats: DiffStats::empty(),
    };
    let a = TimestampIndex::build(&[mk(3, "x"), mk(1, "y")]);
    let b = TimestampIndex::build(&[mk(1, "y"), mk(3, "x")]);
    assert_eq!(a.get(0).id, 1);
    assert_eq!(b.get(0).id, 1);
    assert_eq!(a.paginate(1, 1).items[0].message, "y");
    assert_eq!(b.paginate(1, 1).items[0].message, "y");
}
