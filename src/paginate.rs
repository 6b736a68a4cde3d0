//! Fixed-size pages over the timestamp index, and resumption from a point
//! in time.
use vstd::prelude::*;
use crate::model::{LogEntry, LogEntryView, entries_view};
use crate::index::{TimestampIndex, sorted, key_le};

verus! {

/// How to move from a page to its neighbours.
#[derive(Clone, Copy, Debug, PartialEq, Eq)]
pub struct PageNavigation {
    pub previous_timestamp: Option<i64>,
    pub next_timestamp: Option<i64>,
    pub can_continue: bool,
    pub can_go_back: bool,
    pub bookmark_id: Option<u64>,
}

/// One window of the index. Page numbers start at 1.
#[derive(Clone, Debug)]
pub struct Page {
    pub page_number: usize,
    pub total_pages: usize,
    pub items: Vec<LogEntry>,
    /// Timestamps of the first and last item; `None` on an empty page.
    pub timestamp_range: Option<(i64, i64)>,
    pub navigation: PageNavigation,
}

/// The value of a `Page`.
pub struct PageView {
    pub page_number: usize,
    pub total_pages: usize,
    pub items: Seq<LogEntryView>,
    pub timestamp_range: Option<(i64, i64)>,
    pub navigation: PageNavigation,
}

impl View for Page {
    type V = PageView;

    open spec fn view(&self) -> PageView {
        PageView {
            page_number: self.page_number,
            total_pages: self.total_pages,
            items: entries_view(self.items@),
            timestamp_range: self.timestamp_range,
            navigation: self.navigation,
        }
    }
}

/// The smaller of two integers.
pub open spec fn min_int(a: int, b: int) -> int {
    if a <= b {
        a
    } else {
        b
    }
}

/// Number of pages of `size` entries needed for `total` entries.
pub open spec fn ceil_div(total: int, size: int) -> int {
    total / size + if total % size == 0 {
        0int
    } else {
        1int
    }
}

/// Position of the first entry of page `page`, before clamping to the end
/// (page 0 is read as page 1).
pub open spec fn raw_start(page: int, size: int) -> int {
    if page <= 1 {
        0
    } else {
        (page - 1) * size
    }
}

/// First position of page `page` within `total` entries.
pub open spec fn page_start(total: int, page: int, size: int) -> int {
    min_int(raw_start(page, size), total)
}

/// One past the last position of page `page` within `total` entries.
pub open spec fn page_end(total: int, page: int, size: int) -> int {
    min_int(page_start(total, page, size) + size, total)
}

/// The page `page` of `size` entries over the ordered entries `s`.
pub open spec fn page_of(s: Seq<LogEntryView>, page: usize, size: usize) -> PageView {
    let total = s.len() as int;
    let start = page_start(total, page as int, size as int);
    let end = page_end(total, page as int, size as int);
    let raw = raw_start(page as int, size as int);
    PageView {
        page_number: page,
        total_pages: ceil_div(total, size as int) as usize,
        items: s.subrange(start, end),
        timestamp_range: if start < end {
            Some((s[start].timestamp, s[end - 1].timestamp))
        } else {
            None
        },
        navigation: PageNavigation {
            previous_timestamp: if page > 1 && raw - 1 < total {
                Some(s[raw - 1].timestamp)
            } else {
                None
            },
            next_timestamp: if end < total {
                Some(s[end].timestamp)
            } else {
                None
            },
            can_continue: end < total,
            can_go_back: page > 1,
            bookmark_id: None,
        },
    }
}

/// Position of the first entry from `i` on whose timestamp is at least `t`
/// (the length if there is none).
pub open spec fn first_at_or_after(s: Seq<LogEntryView>, t: i64, i: int) -> int
    decreases s.len() - i,
{
    if i >= s.len() {
        s.len() as int
    } else if s[i].timestamp >= t {
        i
    } else {
        first_at_or_after(s, t, i + 1)
    }
}

/// Where resumption from `t` lands: the first entry at or after `t`, or the
/// last entry when there is none.
pub open spec fn resume_position(s: Seq<LogEntryView>, t: i64) -> int {
    let f = first_at_or_after(s, t, 0);
    if f < s.len() {
        f
    } else if s.len() > 0 {
        s.len() - 1
    } else {
        0
    }
}

/// The page number that holds the resumption position.
pub open spec fn resume_page(s: Seq<LogEntryView>, t: i64, size: usize) -> int {
    resume_position(s, t) / (size as int) + 1
}

/// In index order, timestamps never decrease.
pub proof fn lemma_sorted_timestamps(s: Seq<LogEntryView>)
    requires
        sorted(s),
    ensures
        forall|i: int, j: int| 0 <= i <= j < s.len() ==> s[i].timestamp <= s[j].timestamp,
{
    assert forall|i: int, j: int| 0 <= i <= j < s.len() implies s[i].timestamp <= s[j].timestamp by {
        if i < j {
            assert(key_le(s[i], s[j]));
        }
    }
}

proof fn lemma_first_at_or_after(s: Seq<LogEntryView>, t: i64, p: int, i: int)
    requires
        0 <= i <= p <= s.len(),
        forall|j: int| 0 <= j < p ==> #[trigger] s[j].timestamp < t,
        forall|j: int| p <= j < s.len() ==> #[trigger] s[j].timestamp >= t,
    ensures
        first_at_or_after(s, t, i) == p,
    decreases p - i,
{
    if i < p {
        lemma_first_at_or_after(s, t, p, i + 1);
    }
}

/// The bounds of page `page`, computed without overflow.
fn page_bounds(total: usize, page: usize, size: usize) -> (r: (usize, usize, bool))
    requires
        size >= 1,
    ensures
        r.0 == page_start(total as int, page as int, size as int),
        r.1 == page_end(total as int, page as int, size as int),
        r.2 == (page > 1 && raw_start(page as int, size as int) - 1 < total),
        r.2 ==> r.0 >= 1 && r.0 == raw_start(page as int, size as int),
{
    if page <= 1 {
        let end = if size > total { total } else { size };
        return (0, end, false);
    }
    let k = page - 1;
    let start: usize;
    let has_prev: bool;
    if k > total / size {
        proof {
            assert((total as int / size as int + 1) * size as int > total as int) by (nonlinear_arith)
                requires size >= 1;
            assert(k as int * size as int >= (total as int / size as int + 1) * size as int) by (nonlinear_arith)
                requires k as int >= total as int / size as int + 1, size >= 1;
        }
        start = total;
        has_prev = false;
    } else {
        proof {
            assert(k as int * size as int <= (total as int / size as int) * size as int) by (nonlinear_arith)
                requires k as int <= total as int / size as int, size >= 1;
            assert((total as int / size as int) * size as int <= total as int) by (nonlinear_arith)
                requires size >= 1;
            assert(k as int * size as int >= size as int) by (nonlinear_arith)
                requires k >= 1;
        }
        start = k * size;
        has_prev = true;
    }
    let end = if size > total - start { total } else { start + size };
    (start, end, has_prev)
}

/// Number of pages of `size` entries over `total` entries.
fn count_pages(total: usize, size: usize) -> (r: usize)
    requires
        size >= 1,
    ensures
        r == ceil_div(total as int, size as int),
{
    let q = total / size;
    if total % size == 0 {
        q
    } else {
        proof {
            assert(q as int * size as int + (total % size) as int == total as int) by (nonlinear_arith)
                requires q == total / size, size >= 1;
            assert(q as int * size as int >= q as int) by (nonlinear_arith)
                requires size >= 1, q >= 0;
        }
        q + 1
    }
}

/// The items of pages `1..=k`, one after another.
pub open spec fn pages_concat(s: Seq<LogEntryView>, size: usize, k: nat) -> Seq<LogEntryView>
    decreases k,
{
    if k == 0 {
        Seq::empty()
    } else {
        pages_concat(s, size, (k - 1) as nat) + page_of(s, k as usize, size).items
    }
}

proof fn lemma_pages_prefix(s: Seq<LogEntryView>, size: usize, k: nat)
    requires
        size >= 1,
        k <= usize::MAX,
    ensures
        pages_concat(s, size, k) == s.subrange(0, min_int(k * size, s.len() as int)),
    decreases k,
{
    if k == 0 {
        assert(s.subrange(0, 0) =~= Seq::<LogEntryView>::empty());
    } else {
        lemma_pages_prefix(s, size, (k - 1) as nat);
        let len = s.len() as int;
        assert(raw_start(k as int, size as int) == (k - 1) * size) by (nonlinear_arith)
            requires k >= 1;
        assert((k - 1) * size + size == k * size) by (nonlinear_arith);
        assert((k - 1) * size >= 0) by (nonlinear_arith)
            requires k >= 1;
        let start = page_start(len, k as int, size as int);
        let end = page_end(len, k as int, size as int);
        assert(end == min_int(k * size, len));
        assert(s.subrange(0, start) + s.subrange(start, end) =~= s.subrange(0, end));
    }
}

/// Pagination covers the index: the pages `1..=total_pages`, one after
/// another, give back every entry in order, with no gap and no repetition.
pub proof fn law_pagination_coverage(s: Seq<LogEntryView>, size: usize)
    requires
        size >= 1,
        s.len() <= usize::MAX,
    ensures
        pages_concat(s, size, ceil_div(s.len() as int, size as int) as nat) == s,
{
    let len = s.len() as int;
    let k = ceil_div(len, size as int);
    assert(k * size >= len && k <= len && k >= 0) by (nonlinear_arith)
        requires k == len / (size as int) + if len % (size as int) == 0 { 0int } else { 1int }, size >= 1, len >= 0;
    lemma_pages_prefix(s, size, k as nat);
    assert(s.subrange(0, len) =~= s);
}

proof fn lemma_first_found(s: Seq<LogEntryView>, t: i64, i: int, j: int)
    requires
        0 <= i <= j < s.len(),
        s[j].timestamp >= t,
    ensures
        i <= first_at_or_after(s, t, i) <= j,
        s[first_at_or_after(s, t, i)].timestamp >= t,
        forall|m: int| i <= m < first_at_or_after(s, t, i) ==> #[trigger] s[m].timestamp < t,
    decreases j - i,
{
    if s[i].timestamp < t {
        lemma_first_found(s, t, i + 1, j);
    }
}

/// Resumption is consistent with direct pagination: for a timestamp `t` that
/// occurs in the index, resuming at `t` gives page `position / size + 1`,
/// where `position` is that of the first entry at `t`; that page holds this
/// entry, and when the entry opens its page, the page's first item is at or
/// after `t`.
pub proof fn law_resumption(s: Seq<LogEntryView>, t: i64, size: usize)
    requires
        sorted(s),
        size >= 1,
        s.len() <= usize::MAX,
        exists|j: int| 0 <= j < s.len() && #[trigger] s[j].timestamp == t,
    ensures
        ({
            let position = first_at_or_after(s, t, 0);
            let page = page_of(s, (position / size as int + 1) as usize, size);
            &&& 0 <= position < s.len()
            &&& s[position].timestamp == t
            &&& resume_page(s, t, size) == position / size as int + 1
            &&& page.items[position % size as int] == s[position]
            &&& position % size as int == 0 ==> page.items[0].timestamp >= t
        }),
{
    let j = choose|j: int| 0 <= j < s.len() && #[trigger] s[j].timestamp == t;
    lemma_first_found(s, t, 0, j);
    lemma_sorted_timestamps(s);
    let position = first_at_or_after(s, t, 0);
    let q = position / size as int;
    let r = position % size as int;
    assert(position == q * size + r && 0 <= r < size && q >= 0) by (nonlinear_arith)
        requires q == position / size as int, r == position % size as int, size >= 1, position >= 0;
    assert(raw_start(q + 1, size as int) == q * size) by (nonlinear_arith)
        requires q >= 0;
    assert(q + 1 <= usize::MAX);
}

impl TimestampIndex {
    /// Page `page_number` of `page_size` entries. A page past the end is
    /// empty, not an error.
    pub fn paginate(&self, page_number: usize, page_size: usize) -> (r: Page)
        requires
            page_size >= 1,
        ensures
            r@ == page_of(self@, page_number, page_size),
    {
        let ghost s = self@;
        let total = self.len();
        let (start, end, has_prev) = page_bounds(total, page_number, page_size);
        let mut items: Vec<LogEntry> = Vec::new();
        let mut j: usize = start;
        while j < end
            invariant
                s == self@,
                total == s.len(),
                start <= j <= end <= total,
                entries_view(items@) == s.subrange(start as int, j as int),
            decreases end - j,
        {
            let e = self.get(j).duplicate();
            let ghost before = items@;
            items.push(e);
            proof {
                assert(entries_view(items@) =~= entries_view(before).push(e@));
                assert(s.subrange(start as int, j + 1) =~= s.subrange(start as int, j as int).push(s[j as int]));
            }
            j = j + 1;
        }
        let timestamp_range = if start < end {
            Some((self.get(start).timestamp, self.get(end - 1).timestamp))
        } else {
            None
        };
        let previous_timestamp = if has_prev {
            Some(self.get(start - 1).timestamp)
        } else {
            None
        };
        let next_timestamp = if end < total {
            Some(self.get(end).timestamp)
        } else {
            None
        };
        let navigation = PageNavigation {
            previous_timestamp,
            next_timestamp,
            can_continue: end < total,
            can_go_back: page_number > 1,
            bookmark_id: None,
        };
        let r = Page {
            page_number,
            total_pages: count_pages(total, page_size),
            items,
            timestamp_range,
            navigation,
        };
        assert(r@.items =~= page_of(s, page_number, page_size).items);
        r
    }

    /// Position of the first entry whose timestamp is at least `t` (the
    /// number of entries if there is none), by binary search.
    pub fn position_at_or_after(&self, t: i64) -> (r: usize)
        requires
            self.wf(),
        ensures
            r == first_at_or_after(self@, t, 0),
    {
        let ghost s = self@;
        proof {
            lemma_sorted_timestamps(s);
        }
        let mut lo: usize = 0;
        let mut hi: usize = self.len();
        while lo < hi
            invariant
                s == self@,
                0 <= lo <= hi <= s.len(),
                forall|i: int, j: int| 0 <= i <= j < s.len() ==> s[i].timestamp <= s[j].timestamp,
                forall|j: int| 0 <= j < lo ==> #[trigger] s[j].timestamp < t,
                forall|j: int| hi <= j < s.len() ==> #[trigger] s[j].timestamp >= t,
            decreases hi - lo,
        {
            let mid = lo + (hi - lo) / 2;
            if self.get(mid).timestamp < t {
                lo = mid + 1;
            } else {
                hi = mid;
            }
        }
        proof {
            lemma_first_at_or_after(s, t, lo as int, 0);
        }
        lo
    }

    /// Resumes at `t`: the page that holds the first entry at or after `t`,
    /// or, when there is none, the page that holds the last entry.
    pub fn continue_from_timestamp(&self, t: i64, page_size: usize) -> (r: Page)
        requires
            self.wf(),
            page_size >= 1,
        ensures
            r@ == page_of(self@, resume_page(self@, t, page_size) as usize, page_size),
    {
        let f = self.position_at_or_after(t);
        let n = self.len();
        let position = if f < n {
            f
        } else if n > 0 {
            n - 1
        } else {
            0
        };
        let page_number = position / page_size + 1;
        self.paginate(page_number, page_size)
    }
}

} // verus!
