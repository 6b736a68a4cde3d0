//! The timestamp index: every aggregated entry, in a fixed total order by
//! `(timestamp, submodule_path, commit_hash, id)`.
use vstd::prelude::*;
use vstd::seq_lib::*;
use crate::model::{LogEntry, LogEntryView, entries_view};
use crate::text::{seq_lt, lemma_seq_lt_order, str_lt, str_eq};

verus! {

/// `x` may stand before `y` in the index: earlier timestamp, then smaller
/// submodule path, then smaller commit hash, then smaller (or equal) id.
pub open spec fn key_le(x: LogEntryView, y: LogEntryView) -> bool {
    x.timestamp < y.timestamp || (x.timestamp == y.timestamp && (seq_lt(x.submodule_path, y.submodule_path)
        || (x.submodule_path == y.submodule_path && (seq_lt(x.commit_hash, y.commit_hash) || (x.commit_hash
        == y.commit_hash && x.id <= y.id)))))
}

/// Every pair of entries stands in index order.
pub open spec fn sorted(s: Seq<LogEntryView>) -> bool {
    forall|i: int, j: int| 0 <= i < j < s.len() ==> key_le(s[i], s[j])
}

/// Where `x` goes into the ordered `t`: after every entry that may stand
/// before it.
pub open spec fn insert_pos(t: Seq<LogEntryView>, x: LogEntryView) -> int
    decreases t.len(),
{
    if t.len() == 0 {
        0
    } else if key_le(t.last(), x) {
        t.len() as int
    } else {
        insert_pos(t.drop_last(), x)
    }
}

/// The index order of a collection: each entry in turn is placed after all
/// entries that may stand before it, so that equal keys keep their input order.
pub open spec fn ordered(s: Seq<LogEntryView>) -> Seq<LogEntryView>
    decreases s.len(),
{
    if s.len() == 0 {
        s
    } else {
        let t = ordered(s.drop_last());
        t.insert(insert_pos(t, s.last()), s.last())
    }
}

/// `key_le` is a total preorder.
pub proof fn lemma_key_order()
    ensures
        forall|x: LogEntryView, y: LogEntryView, z: LogEntryView|
            #[trigger] key_le(x, y) && #[trigger] key_le(y, z) ==> key_le(x, z),
        forall|x: LogEntryView, y: LogEntryView| #[trigger] key_le(x, y) || key_le(y, x),
{
    lemma_seq_lt_order();
    assert forall|x: LogEntryView, y: LogEntryView, z: LogEntryView|
        #[trigger] key_le(x, y) && #[trigger] key_le(y, z) implies key_le(x, z) by {
        if seq_lt(x.submodule_path, y.submodule_path) && seq_lt(y.submodule_path, z.submodule_path) {
            assert(seq_lt(x.submodule_path, z.submodule_path));
        }
        if seq_lt(x.commit_hash, y.commit_hash) && seq_lt(y.commit_hash, z.commit_hash) {
            assert(seq_lt(x.commit_hash, z.commit_hash));
        }
    }
    assert forall|x: LogEntryView, y: LogEntryView| #[trigger] key_le(x, y) || key_le(y, x) by {
        if x.submodule_path != y.submodule_path {
            assert(seq_lt(x.submodule_path, y.submodule_path) || seq_lt(y.submodule_path, x.submodule_path));
        }
        if x.commit_hash != y.commit_hash {
            assert(seq_lt(x.commit_hash, y.commit_hash) || seq_lt(y.commit_hash, x.commit_hash));
        }
    }
}

proof fn lemma_insert_pos(t: Seq<LogEntryView>, x: LogEntryView)
    requires
        sorted(t),
    ensures
        0 <= insert_pos(t, x) <= t.len(),
        forall|j: int| 0 <= j < insert_pos(t, x) ==> key_le(#[trigger] t[j], x),
        forall|j: int| insert_pos(t, x) <= j < t.len() ==> !key_le(#[trigger] t[j], x),
    decreases t.len(),
{
    lemma_key_order();
    if t.len() > 0 {
        if key_le(t.last(), x) {
            assert forall|j: int| 0 <= j < t.len() implies key_le(#[trigger] t[j], x) by {
                if j < t.len() - 1 {
                    assert(key_le(t[j], t[t.len() - 1]));
                    assert(key_le(t[t.len() - 1], x));
                }
            }
        } else {
            let u = t.drop_last();
            assert(sorted(u));
            lemma_insert_pos(u, x);
            assert forall|j: int| 0 <= j < insert_pos(t, x) implies key_le(#[trigger] t[j], x) by {
                assert(t[j] == u[j]);
            }
            assert forall|j: int| insert_pos(t, x) <= j < t.len() implies !key_le(#[trigger] t[j], x) by {
                if j < t.len() - 1 {
                    assert(t[j] == u[j]);
                }
            }
        }
    }
}

/// The index order is sorted, and a permutation of its input.
pub proof fn lemma_ordered(s: Seq<LogEntryView>)
    ensures
        sorted(ordered(s)),
        ordered(s).len() == s.len(),
        ordered(s).to_multiset() == s.to_multiset(),
    decreases s.len(),
{
    if s.len() > 0 {
        let u = s.drop_last();
        let x = s.last();
        lemma_ordered(u);
        let t = ordered(u);
        let p = insert_pos(t, x);
        lemma_insert_pos(t, x);
        lemma_key_order();
        let r = t.insert(p, x);
        assert(r == ordered(s));
        assert forall|i: int, j: int| 0 <= i < j < r.len() implies key_le(r[i], r[j]) by {
            if j < p {
                assert(r[i] == t[i] && r[j] == t[j]);
            } else if j == p {
                assert(r[i] == t[i]);
            } else if i == p {
                assert(r[j] == t[j - 1]);
                assert(!key_le(t[j - 1], x));
            } else if i < p {
                assert(r[i] == t[i] && r[j] == t[j - 1]);
            } else {
                assert(r[i] == t[i - 1] && r[j] == t[j - 1]);
            }
        }
        to_multiset_insert(t, p, x);
        to_multiset_build(u, x);
        assert(u.push(x) == s);
    }
}

/// Index order: timestamps never decrease, and entries with equal timestamps
/// stand by submodule path, then by commit hash, then by id.
pub proof fn law_index_order(s: Seq<LogEntryView>)
    ensures
        forall|i: int, j: int|
            0 <= i < j < ordered(s).len() ==> (#[trigger] ordered(s)[i]).timestamp <= (
            #[trigger] ordered(s)[j]).timestamp,
        forall|i: int, j: int|
            0 <= i < j < ordered(s).len() && (#[trigger] ordered(s)[i]).timestamp == (
            #[trigger] ordered(s)[j]).timestamp ==> tie_order(ordered(s)[i], ordered(s)[j]),
{
    lemma_ordered(s);
    let o = ordered(s);
    assert forall|i: int, j: int| 0 <= i < j < o.len() implies (#[trigger] o[i]).timestamp <= (
    #[trigger] o[j]).timestamp by {
        assert(key_le(o[i], o[j]));
    }
    assert forall|i: int, j: int|
        0 <= i < j < o.len() && (#[trigger] o[i]).timestamp == (#[trigger] o[j]).timestamp implies tie_order(
            o[i],
            o[j],
        ) by {
        assert(key_le(o[i], o[j]));
    }
}

/// The order among entries of equal timestamp: by submodule path, then by
/// commit hash, then by id.
pub open spec fn tie_order(a: LogEntryView, b: LogEntryView) -> bool {
    seq_lt(a.submodule_path, b.submodule_path) || (a.submodule_path == b.submodule_path && (seq_lt(
        a.commit_hash,
        b.commit_hash,
    ) || (a.commit_hash == b.commit_hash && a.id <= b.id)))
}

/// No entry is lost: the index holds exactly the aggregated entries, as
/// many times as they occur, also where timestamps are shared.
pub proof fn law_index_complete(s: Seq<LogEntryView>)
    ensures
        ordered(s).len() == s.len(),
        ordered(s).to_multiset() == s.to_multiset(),
{
    lemma_ordered(s);
}

/// The ordering key of an entry: timestamp, submodule path, commit hash, id.
pub open spec fn entry_key(e: LogEntryView) -> (i64, Seq<char>, Seq<char>, u64) {
    (e.timestamp, e.submodule_path, e.commit_hash, e.id)
}

/// The ordering keys of a sequence of entries.
pub open spec fn keys(s: Seq<LogEntryView>) -> Seq<(i64, Seq<char>, Seq<char>, u64)> {
    s.map_values(|e: LogEntryView| entry_key(e))
}

proof fn lemma_key_le_antisymmetric(x: LogEntryView, y: LogEntryView)
    requires
        key_le(x, y),
        key_le(y, x),
    ensures
        entry_key(x) == entry_key(y),
{
    lemma_seq_lt_order();
    if x.submodule_path != y.submodule_path {
        assert(seq_lt(x.submodule_path, y.submodule_path) || seq_lt(y.submodule_path, x.submodule_path));
    }
    if x.commit_hash != y.commit_hash {
        assert(seq_lt(x.commit_hash, y.commit_hash) || seq_lt(y.commit_hash, x.commit_hash));
    }
}

proof fn lemma_key_le_reflexive(x: LogEntryView, y: LogEntryView)
    requires
        entry_key(x) == entry_key(y),
    ensures
        key_le(x, y),
{
    lemma_seq_lt_order();
    assert(!seq_lt(y.commit_hash, y.commit_hash));
}

/// Two sorted sequences that hold the same entries have the same keys,
/// position by position.
proof fn lemma_sorted_unique_keys(s: Seq<LogEntryView>, t: Seq<LogEntryView>)
    requires
        sorted(s),
        sorted(t),
        s.to_multiset() == t.to_multiset(),
    ensures
        keys(s) == keys(t),
    decreases s.len(),
{
    broadcast use vstd::seq_lib::group_to_multiset_ensures;

    lemma_key_order();
    assert(s.len() == t.len()) by {
        s.to_multiset_ensures();
        t.to_multiset_ensures();
    }
    if s.len() == 0 {
        assert(keys(s) =~= keys(t));
    } else {
        let n = s.len() as int;
        let x = s.last();
        let y = t.last();
        s.to_multiset_ensures();
        t.to_multiset_ensures();
        assert(s.contains(x)) by {
            assert(s[n - 1] == x);
        }
        assert(s.to_multiset().count(x) > 0);
        assert(t.contains(x));
        assert(t.contains(y)) by {
            assert(t[n - 1] == y);
        }
        assert(t.to_multiset().count(y) > 0);
        assert(s.contains(y));
        let j = choose|j: int| 0 <= j < n && t[j] == x;
        let i = choose|i: int| 0 <= i < n && s[i] == y;
        if i < n - 1 {
            assert(key_le(s[i], s[n - 1]));
        } else {
            lemma_key_le_reflexive(y, x);
        }
        if j < n - 1 {
            assert(key_le(t[j], t[n - 1]));
        } else {
            lemma_key_le_reflexive(x, y);
        }
        lemma_key_le_antisymmetric(x, y);
        assert forall|k: int| j <= k < n implies entry_key(#[trigger] t[k]) == entry_key(x) by {
            if j < k {
                assert(key_le(t[j], t[k]));
            } else {
                lemma_key_le_reflexive(x, t[k]);
            }
            if k < n - 1 {
                assert(key_le(t[k], t[n - 1]));
            } else {
                lemma_key_le_reflexive(t[k], y);
            }
            lemma_key_le_reflexive(y, x);
            assert(key_le(t[k], x));
            lemma_key_le_antisymmetric(t[k], x);
        }
        let u = s.drop_last();
        let v = t.remove(j);
        assert(sorted(u));
        assert(sorted(v)) by {
            assert forall|a: int, b: int| 0 <= a < b < v.len() implies key_le(v[a], v[b]) by {
                let a2 = if a < j { a } else { a + 1 };
                let b2 = if b < j { b } else { b + 1 };
                assert(v[a] == t[a2] && v[b] == t[b2]);
                assert(key_le(t[a2], t[b2]));
            }
        }
        assert(u.push(x) == s);
        to_multiset_build(u, x);
        to_multiset_remove(t, j);
        assert(u.to_multiset() =~= v.to_multiset());
        lemma_sorted_unique_keys(u, v);
        assert forall|k: int| 0 <= k < n implies keys(s)[k] == keys(t)[k] by {
            if k < n - 1 {
                assert(keys(u)[k] == keys(v)[k]);
                assert(keys(s)[k] == keys(u)[k]);
                if k < j {
                    assert(v[k] == t[k]);
                } else {
                    assert(v[k] == t[k + 1]);
                    assert(entry_key(t[k + 1]) == entry_key(t[k]));
                }
            }
        }
        assert(keys(s) =~= keys(t));
    }
}

/// No two entries share an id.
pub open spec fn unique_ids(s: Seq<LogEntryView>) -> bool {
    forall|i: int, j: int| 0 <= i < j < s.len() ==> (#[trigger] s[i]).id != (#[trigger] s[j]).id
}

/// Rebuilding from the same aggregated entries (ids unique, as aggregation
/// makes them), given in any order, gives the identical order, and so
/// identical pages.
pub proof fn law_rebuild_identical(a: Seq<LogEntryView>, b: Seq<LogEntryView>)
    requires
        a.to_multiset() == b.to_multiset(),
        unique_ids(a),
    ensures
        ordered(a) == ordered(b),
        forall|page: usize, size: usize|
            #[trigger] crate::paginate::page_of(ordered(a), page, size) == crate::paginate::page_of(
                ordered(b),
                page,
                size,
            ),
{
    broadcast use vstd::seq_lib::group_to_multiset_ensures;

    lemma_ordered(a);
    lemma_ordered(b);
    let (oa, ob) = (ordered(a), ordered(b));
    lemma_sorted_unique_keys(oa, ob);
    assert(oa.len() == ob.len()) by {
        assert(keys(oa).len() == keys(ob).len());
    }
    a.to_multiset_ensures();
    oa.to_multiset_ensures();
    ob.to_multiset_ensures();
    assert forall|k: int| 0 <= k < oa.len() implies oa[k] == ob[k] by {
        assert(keys(oa)[k] == keys(ob)[k]);
        assert(oa.to_multiset().count(oa[k]) > 0) by {
            assert(oa.contains(oa[k]));
        }
        assert(ob.to_multiset().count(ob[k]) > 0) by {
            assert(ob.contains(ob[k]));
        }
        assert(a.contains(oa[k]));
        assert(a.contains(ob[k]));
        let i = choose|i: int| 0 <= i < a.len() && a[i] == oa[k];
        let j = choose|j: int| 0 <= j < a.len() && a[j] == ob[k];
        if i < j {
            assert(a[i].id != a[j].id);
        } else if j < i {
            assert(a[j].id != a[i].id);
        }
    }
    assert(oa =~= ob);
}

/// Tests `key_le` on two entries.
pub fn entry_le(x: &LogEntry, y: &LogEntry) -> (r: bool)
    ensures
        r == key_le(x@, y@),
{
    if x.timestamp != y.timestamp {
        return x.timestamp < y.timestamp;
    }
    if str_lt(x.submodule_path.as_str(), y.submodule_path.as_str()) {
        return true;
    }
    if !str_eq(x.submodule_path.as_str(), y.submodule_path.as_str()) {
        return false;
    }
    if str_lt(x.commit_hash.as_str(), y.commit_hash.as_str()) {
        return true;
    }
    if !str_eq(x.commit_hash.as_str(), y.commit_hash.as_str()) {
        return false;
    }
    x.id <= y.id
}

/// Finds by binary search where `x` goes into the ordered `t`.
fn upper_bound(t: &Vec<LogEntry>, x: &LogEntry) -> (p: usize)
    requires
        sorted(entries_view(t@)),
    ensures
        p == insert_pos(entries_view(t@), x@),
        p <= t@.len(),
{
    let ghost tv = entries_view(t@);
    let mut lo: usize = 0;
    let mut hi: usize = t.len();
    proof {
        lemma_key_order();
    }
    while lo < hi
        invariant
            tv == entries_view(t@),
            sorted(tv),
            0 <= lo <= hi <= t.len(),
            forall|j: int| 0 <= j < lo ==> key_le(#[trigger] tv[j], x@),
            forall|j: int| hi <= j < t.len() ==> !key_le(#[trigger] tv[j], x@),
            forall|a: LogEntryView, b: LogEntryView, c: LogEntryView|
                #[trigger] key_le(a, b) && #[trigger] key_le(b, c) ==> key_le(a, c),
        decreases hi - lo,
    {
        let mid = lo + (hi - lo) / 2;
        if entry_le(&t[mid], x) {
            assert forall|j: int| 0 <= j < mid + 1 implies key_le(#[trigger] tv[j], x@) by {
                if j < mid {
                    assert(key_le(tv[j], tv[mid as int]));
                }
            }
            lo = mid + 1;
        } else {
            assert forall|j: int| mid <= j < t.len() implies !key_le(#[trigger] tv[j], x@) by {
                if j > mid {
                    assert(key_le(tv[mid as int], tv[j]));
                }
            }
            hi = mid;
        }
    }
    proof {
        lemma_insert_pos(tv, x@);
        let q = insert_pos(tv, x@);
        if q < lo {
            assert(key_le(tv[q], x@));
        } else if q > lo {
            assert(!key_le(tv[lo as int], x@));
        }
    }
    lo
}

/// All entries of one aggregation run, in index order.
pub struct TimestampIndex {
    entries: Vec<LogEntry>,
}

impl View for TimestampIndex {
    type V = Seq<LogEntryView>;

    closed spec fn view(&self) -> Seq<LogEntryView> {
        entries_view(self.entries@)
    }
}

impl TimestampIndex {
    /// The index holds its entries in index order.
    pub open spec fn wf(&self) -> bool {
        sorted(self@)
    }

    /// An index with no entries.
    pub fn new() -> (r: TimestampIndex)
        ensures
            r@ == Seq::<LogEntryView>::empty(),
            r.wf(),
    {
        let r = TimestampIndex { entries: Vec::new() };
        assert(r@ =~= Seq::<LogEntryView>::empty());
        r
    }

    /// Builds the index from the aggregated entries, from scratch.
    pub fn build(logs: &[LogEntry]) -> (r: TimestampIndex)
        ensures
            r@ == ordered(entries_view(logs@)),
            r.wf(),
    {
        let ghost lv = entries_view(logs@);
        let mut entries: Vec<LogEntry> = Vec::new();
        let n = logs.len();
        let mut i: usize = 0;
        proof {
            assert(lv.subrange(0, 0) =~= Seq::<LogEntryView>::empty());
            assert(entries_view(entries@) =~= Seq::<LogEntryView>::empty());
        }
        while i < n
            invariant
                0 <= i <= n,
                n == logs@.len(),
                lv == entries_view(logs@),
                entries_view(entries@) == ordered(lv.subrange(0, i as int)),
                sorted(entries_view(entries@)),
            decreases n - i,
        {
            let e = logs[i].duplicate();
            let p = upper_bound(&entries, &e);
            let ghost before = entries@;
            entries.insert(p, e);
            proof {
                let s = lv.subrange(0, i + 1);
                assert(s.drop_last() =~= lv.subrange(0, i as int));
                assert(s.last() == e@);
                assert(entries_view(entries@) =~= entries_view(before).insert(p as int, e@));
                lemma_ordered(s);
            }
            i = i + 1;
        }
        assert(lv.subrange(0, n as int) =~= lv);
        TimestampIndex { entries }
    }

    /// The number of entries.
    pub fn len(&self) -> (r: usize)
        ensures
            r == self@.len(),
    {
        self.entries.len()
    }

    /// The entry at position `i`.
    pub fn get(&self, i: usize) -> (r: &LogEntry)
        requires
            i < self@.len(),
        ensures
            r@ == self@[i as int],
    {
        &self.entries[i]
    }
}

} // verus!
