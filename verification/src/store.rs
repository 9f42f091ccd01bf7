//! The result store: the discovered-item list together with running
//! aggregate statistics, kept mutually consistent through every mutation.

use vstd::prelude::*;
use crate::categories::CATEGORY_COUNT;
use crate::categories::DEV_ARTIFACT_CONFIDENCE_CAP;
use crate::categories::FileCategory;
use crate::categories::OLD_DOWNLOAD_CONFIDENCE_CAP;
use crate::categories::spec_cat_index;
use crate::text::path_views;
use crate::platform::format_size;
use crate::platform::size_label;
use crate::text::str_eq;

verus! {

/// One discovered reclaimable entity.
#[derive(Debug, Clone, PartialEq)]
pub struct ScannedItem {
    pub path: String,
    pub name: String,
    pub size: u64,
    pub category: FileCategory,
    /// Confidence as an integer percentage in `0 ..= 100`, standing for a
    /// confidence in `[0, 1]` in hundredths.
    pub confidence: u8,
    pub is_dir: bool,
    /// Last-modified time, seconds since the Unix epoch.
    pub modified: u64,
    /// Last-accessed time, seconds since the Unix epoch.
    pub accessed: u64,
    pub is_stale: bool,
    /// Reserved for future duplicate detection; never set by the scan.
    pub hash: Option<String>,
}

/// The mathematical abstraction of a `ScannedItem`: the same fields with
/// strings taken to their character sequences.
pub ghost struct ItemView {
    pub path: Seq<char>,
    pub name: Seq<char>,
    pub size: u64,
    pub category: FileCategory,
    pub confidence: u8,
    pub is_dir: bool,
    pub modified: u64,
    pub accessed: u64,
    pub is_stale: bool,
    pub has_hash: bool,
}

impl View for ScannedItem {
    type V = ItemView;

    open spec fn view(&self) -> ItemView {
        ItemView {
            path: self.path@,
            name: self.name@,
            size: self.size,
            category: self.category,
            confidence: self.confidence,
            is_dir: self.is_dir,
            modified: self.modified,
            accessed: self.accessed,
            is_stale: self.is_stale,
            has_hash: self.hash is Some,
        }
    }
}

/// The abstractions of a sequence of items.
pub open spec fn item_views(s: Seq<ScannedItem>) -> Seq<ItemView> {
    s.map_values(|it: ScannedItem| it@)
}

/// An item's confidence lies within `0 ..= 100` and below the category's
/// documented ceiling where one applies.
pub open spec fn item_valid(item: ScannedItem) -> bool {
    &&& item.confidence <= 100
    &&& item.category == FileCategory::DevArtifact ==> item.confidence
        <= DEV_ARTIFACT_CONFIDENCE_CAP
    &&& item.category == FileCategory::OldDownload ==> item.confidence
        <= OLD_DOWNLOAD_CONFIDENCE_CAP
}

pub open spec fn all_items_valid(items: Seq<ScannedItem>) -> bool {
    forall|i: int| 0 <= i < items.len() ==> item_valid(#[trigger] items[i])
}

impl ScannedItem {
    /// An equal copy, built field by field.
    pub fn duplicate(&self) -> (r: ScannedItem)
        ensures
            r == *self,
    {
        ScannedItem {
            path: self.path.clone(),
            name: self.name.clone(),
            size: self.size,
            category: self.category,
            confidence: self.confidence,
            is_dir: self.is_dir,
            modified: self.modified,
            accessed: self.accessed,
            is_stale: self.is_stale,
            hash: match &self.hash {
                Some(h) => Some(h.clone()),
                None => None,
            },
        }
    }

    /// The item's size rendered for display.
    pub fn size_formatted(&self) -> (r: String)
        ensures
            r@ == size_label(self.size),
    {
        format_size(self.size)
    }

    /// The item's confidence as an integer percentage.
    pub fn confidence_percent(&self) -> (r: u8)
        ensures
            r == self.confidence,
    {
        self.confidence
    }
}

/// Aggregate snapshot of a scan's results.  The per-category tables are
/// keyed by `spec_cat_index` and always have length `CATEGORY_COUNT`.
#[derive(Debug, Clone, PartialEq)]
pub struct ScanStats {
    pub total_items: u64,
    pub total_size: u64,
    pub items_by_category: Vec<u64>,
    pub size_by_category: Vec<u64>,
    pub duration_ms: u64,
}

/// Clamp an unbounded (mathematical) tally into a `u64`.
pub open spec fn clip64(n: int) -> u64 {
    if n >= u64::MAX {
        u64::MAX
    } else if n <= 0 {
        0u64
    } else {
        n as u64
    }
}

/// Sum of all items' sizes.
pub open spec fn sum_sizes(s: Seq<ScannedItem>) -> int
    decreases s.len(),
{
    if s.len() == 0 {
        0
    } else {
        sum_sizes(s.drop_last()) + s.last().size
    }
}

/// Number of items whose category has index `k`.
pub open spec fn count_in_category(s: Seq<ScannedItem>, k: int) -> int
    decreases s.len(),
{
    if s.len() == 0 {
        0
    } else {
        count_in_category(s.drop_last(), k) + if spec_cat_index(s.last().category) == k {
            1int
        } else {
            0int
        }
    }
}

/// Sum of the sizes of items whose category has index `k`.
pub open spec fn sum_in_category(s: Seq<ScannedItem>, k: int) -> int
    decreases s.len(),
{
    if s.len() == 0 {
        0
    } else {
        sum_in_category(s.drop_last(), k) + if spec_cat_index(s.last().category) == k {
            s.last().size as int
        } else {
            0int
        }
    }
}

/// The statistics agree with the item list: the total count and size and
/// every per-category tally equal the corresponding (clamped) sums.
pub open spec fn stats_match(items: Seq<ScannedItem>, st: ScanStats) -> bool {
    &&& st.items_by_category@.len() == CATEGORY_COUNT
    &&& st.size_by_category@.len() == CATEGORY_COUNT
    &&& st.total_items == clip64(items.len() as int)
    &&& st.total_size == clip64(sum_sizes(items))
    &&& forall|k: int|
        0 <= k < CATEGORY_COUNT ==> st.items_by_category@[k] == clip64(
            count_in_category(items, k),
        )
    &&& forall|k: int|
        0 <= k < CATEGORY_COUNT ==> st.size_by_category@[k] == clip64(sum_in_category(items, k))
}

/// Value equality of statistics, comparing the tables by contents.
pub open spec fn stats_eq(a: ScanStats, b: ScanStats) -> bool {
    &&& a.total_items == b.total_items
    &&& a.total_size == b.total_size
    &&& a.items_by_category@ == b.items_by_category@
    &&& a.size_by_category@ == b.size_by_category@
    &&& a.duration_ms == b.duration_ms
}

/// Tallies over an item list are never negative.
pub proof fn lemma_tallies_nonneg(s: Seq<ScannedItem>, k: int)
    ensures
        sum_sizes(s) >= 0,
        count_in_category(s, k) >= 0,
        sum_in_category(s, k) >= 0,
    decreases s.len(),
{
    if s.len() > 0 {
        lemma_tallies_nonneg(s.drop_last(), k);
    }
}

impl ScanStats {
    /// An equal copy, built field by field.
    pub fn duplicate(&self) -> (r: ScanStats)
        ensures
            stats_eq(r, *self),
    {
        ScanStats {
            total_items: self.total_items,
            total_size: self.total_size,
            items_by_category: clone_u64s(&self.items_by_category),
            size_by_category: clone_u64s(&self.size_by_category),
            duration_ms: self.duration_ms,
        }
    }

    /// The total size rendered for display.
    pub fn total_size_formatted(&self) -> (r: String)
        ensures
            r@ == size_label(self.total_size),
    {
        format_size(self.total_size)
    }

    /// The tally of items in `category`.
    pub fn items_in_category(&self, category: FileCategory) -> (r: u64)
        requires
            self.items_by_category@.len() == CATEGORY_COUNT,
        ensures
            r == self.items_by_category@[spec_cat_index(category)],
    {
        let k = category.cat_index();
        self.items_by_category[k]
    }

    /// The tally of bytes held by items in `category`.
    pub fn size_of_category(&self, category: FileCategory) -> (r: u64)
        requires
            self.size_by_category@.len() == CATEGORY_COUNT,
        ensures
            r == self.size_by_category@[spec_cat_index(category)],
    {
        let k = category.cat_index();
        self.size_by_category[k]
    }
}

fn clone_u64s(v: &Vec<u64>) -> (r: Vec<u64>)
    ensures
        r@ == v@,
{
    let mut r: Vec<u64> = Vec::new();
    let n = v.len();
    let mut i: usize = 0;
    while i < n
        invariant
            0 <= i <= n,
            n == v@.len(),
            r@ == v@.take(i as int),
        decreases n - i,
    {
        r.push(v[i]);
        proof {
            assert(v@.take(i + 1 as int) =~= v@.take(i as int).push(v@[i as int]));
        }
        i += 1;
    }
    proof {
        assert(v@.take(n as int) =~= v@);
    }
    r
}

/// A `ScanStats` with every tally zero and the given duration.
fn zero_stats(duration_ms: u64) -> (st: ScanStats)
    ensures
        stats_match(Seq::<ScannedItem>::empty(), st),
        st.duration_ms == duration_ms,
{
    let mut items_by: Vec<u64> = Vec::new();
    let mut size_by: Vec<u64> = Vec::new();
    let mut i: usize = 0;
    while i < CATEGORY_COUNT
        invariant
            0 <= i <= CATEGORY_COUNT,
            items_by@.len() == i,
            size_by@.len() == i,
            forall|k: int| 0 <= k < i ==> items_by@[k] == 0,
            forall|k: int| 0 <= k < i ==> size_by@[k] == 0,
        decreases CATEGORY_COUNT - i,
    {
        items_by.push(0);
        size_by.push(0);
        i += 1;
    }
    ScanStats {
        total_items: 0,
        total_size: 0,
        items_by_category: items_by,
        size_by_category: size_by,
        duration_ms,
    }
}

/// Records `item` in the tallies: `st` matching `s` becomes `st` matching
/// `s.push(item)`.
fn bump_stats(st: &mut ScanStats, item: &ScannedItem, Ghost(s): Ghost<Seq<ScannedItem>>)
    requires
        stats_match(s, *old(st)),
    ensures
        stats_match(s.push(*item), *final(st)),
        final(st).duration_ms == old(st).duration_ms,
{
    let k = item.category.cat_index();
    st.total_items = st.total_items.saturating_add(1);
    st.total_size = st.total_size.saturating_add(item.size);
    let c = st.items_by_category[k].saturating_add(1);
    st.items_by_category.set(k, c);
    let z = st.size_by_category[k].saturating_add(item.size);
    st.size_by_category.set(k, z);
    proof {
        let t = s.push(*item);
        assert(t.drop_last() =~= s);
        lemma_tallies_nonneg(s, 0);
        assert(sum_sizes(t) == sum_sizes(s) + item.size);
        assert forall|j: int| 0 <= j < CATEGORY_COUNT implies st.items_by_category@[j] == clip64(
            count_in_category(t, j),
        ) by {
            lemma_tallies_nonneg(s, j);
            assert(count_in_category(t, j) == count_in_category(s, j) + if spec_cat_index(
                item.category,
            ) == j {
                1int
            } else {
                0int
            });
        }
        assert forall|j: int| 0 <= j < CATEGORY_COUNT implies st.size_by_category@[j] == clip64(
            sum_in_category(t, j),
        ) by {
            lemma_tallies_nonneg(s, j);
            assert(sum_in_category(t, j) == sum_in_category(s, j) + if spec_cat_index(
                item.category,
            ) == j {
                item.size as int
            } else {
                0int
            });
        }
    }
}

/// Statistics computed afresh from `items`, with the given duration.
pub fn compute_stats(items: &Vec<ScannedItem>, duration_ms: u64) -> (st: ScanStats)
    ensures
        stats_match(items@, st),
        st.duration_ms == duration_ms,
{
    let mut st = zero_stats(duration_ms);
    let n = items.len();
    let mut i: usize = 0;
    while i < n
        invariant
            0 <= i <= n,
            n == items@.len(),
            stats_match(items@.take(i as int), st),
            st.duration_ms == duration_ms,
        decreases n - i,
    {
        bump_stats(&mut st, &items[i], Ghost(items@.take(i as int)));
        proof {
            assert(items@.take(i + 1 as int) =~= items@.take(i as int).push(items@[i as int]));
        }
        i += 1;
    }
    proof {
        assert(items@.take(n as int) =~= items@);
    }
    st
}

/// The discovered-item list and its running aggregates, held together and
/// mutated only through operations that keep the two consistent: no caller
/// ever observes a list and statistics of different generations.
pub struct ResultStore {
    pub items: Vec<ScannedItem>,
    pub stats: ScanStats,
}

/// Items of `items` whose path is not among `paths`, in order.
pub open spec fn spec_retained(items: Seq<ScannedItem>, paths: Seq<Seq<char>>) -> Seq<ScannedItem>
    decreases items.len(),
{
    if items.len() == 0 {
        Seq::empty()
    } else {
        let rest = spec_retained(items.drop_last(), paths);
        if paths.contains(items.last().path@) {
            rest
        } else {
            rest.push(items.last())
        }
    }
}

/// Decides whether `p` occurs in `paths` (by string value).
pub fn contains_path(paths: &Vec<String>, p: &str) -> (r: bool)
    ensures
        r == path_views(paths@).contains(p@),
{
    let n = paths.len();
    let mut i: usize = 0;
    while i < n
        invariant
            0 <= i <= n,
            n == paths@.len(),
            forall|j: int| 0 <= j < i ==> path_views(paths@)[j] != p@,
        decreases n - i,
    {
        if str_eq(paths[i].as_str(), p) {
            assert(path_views(paths@)[i as int] == p@);
            return true;
        }
        assert(path_views(paths@)[i as int] != p@);
        i += 1;
    }
    assert(!path_views(paths@).contains(p@));
    false
}

impl ResultStore {
    /// The store's invariant: statistics agree with the item list, and every
    /// item's confidence is in bounds.
    pub open spec fn wf(&self) -> bool {
        &&& stats_match(self.items@, self.stats)
        &&& all_items_valid(self.items@)
    }

    pub fn new() -> (s: ResultStore)
        ensures
            s.wf(),
            s.items@.len() == 0,
            s.stats.duration_ms == 0,
    {
        ResultStore { items: Vec::new(), stats: zero_stats(0) }
    }

    /// Drops all items and zeroes the statistics.
    pub fn clear(&mut self)
        ensures
            final(self).wf(),
            final(self).items@.len() == 0,
            final(self).stats.duration_ms == 0,
    {
        self.items = Vec::new();
        self.stats = zero_stats(0);
    }

    /// The single mutation point for discoveries: appends the item and
    /// updates every aggregate in the same step, so the list and the
    /// statistics never disagree.
    pub fn add_item(&mut self, item: ScannedItem)
        requires
            old(self).wf(),
            item_valid(item),
        ensures
            final(self).wf(),
            final(self).items@ == old(self).items@.push(item),
            final(self).stats.duration_ms == old(self).stats.duration_ms,
    {
        bump_stats(&mut self.stats, &item, Ghost(self.items@));
        self.items.push(item);
    }

    /// Records the scan's elapsed time.
    pub fn set_duration(&mut self, duration_ms: u64)
        requires
            old(self).wf(),
        ensures
            final(self).wf(),
            final(self).items@ == old(self).items@,
            final(self).stats.duration_ms == duration_ms,
    {
        self.stats.duration_ms = duration_ms;
    }

    /// Removes every item whose path occurs in `paths`, recomputing the
    /// aggregates so they match the reduced list.
    pub fn remove_paths(&mut self, paths: &Vec<String>)
        requires
            old(self).wf(),
        ensures
            final(self).wf(),
            final(self).items@ == spec_retained(old(self).items@, path_views(paths@)),
            final(self).stats.duration_ms == old(self).stats.duration_ms,
    {
        let mut kept: Vec<ScannedItem> = Vec::new();
        let n = self.items.len();
        let mut i: usize = 0;
        while i < n
            invariant
                0 <= i <= n,
                n == self.items@.len(),
                old(self).wf(),
                self.items@ == old(self).items@,
                self.stats == old(self).stats,
                kept@ == spec_retained(self.items@.take(i as int), path_views(paths@)),
            decreases n - i,
        {
            proof {
                assert(self.items@.take(i + 1 as int).drop_last() =~= self.items@.take(i as int));
            }
            if !contains_path(paths, self.items[i].path.as_str()) {
                kept.push(self.items[i].duplicate());
            }
            i += 1;
        }
        proof {
            assert(self.items@.take(n as int) =~= self.items@);
        }
        let duration = self.stats.duration_ms;
        let st = compute_stats(&kept, duration);
        proof {
            lemma_retained_valid(old(self).items@, path_views(paths@));
        }
        self.items = kept;
        self.stats = st;
    }

    /// A snapshot of the item list (a defensive copy).
    pub fn get_items(&self) -> (r: Vec<ScannedItem>)
        ensures
            r@ == self.items@,
    {
        let mut r: Vec<ScannedItem> = Vec::new();
        let n = self.items.len();
        let mut i: usize = 0;
        while i < n
            invariant
                0 <= i <= n,
                n == self.items@.len(),
                r@ == self.items@.take(i as int),
            decreases n - i,
        {
            r.push(self.items[i].duplicate());
            proof {
                assert(self.items@.take(i + 1 as int) =~= self.items@.take(i as int).push(
                    self.items@[i as int],
                ));
            }
            i += 1;
        }
        proof {
            assert(self.items@.take(n as int) =~= self.items@);
        }
        r
    }

    /// A snapshot of the statistics (a defensive copy).
    pub fn get_stats(&self) -> (r: ScanStats)
        ensures
            stats_eq(r, self.stats),
    {
        self.stats.duplicate()
    }
}

/// Aggregate-consistency law: whenever the store invariant holds — it is
/// established by `new` and preserved by `add_item`, `set_duration` and
/// `remove_paths` — the running statistics equal the sums over the current
/// item list: the total count, the total size, and each per-category count
/// and size.
pub proof fn lemma_stats_consistent(store: &ResultStore, k: int)
    requires
        store.wf(),
        0 <= k < CATEGORY_COUNT,
    ensures
        store.stats.total_items == clip64(store.items@.len() as int),
        store.stats.total_size == clip64(sum_sizes(store.items@)),
        store.stats.items_by_category@[k] == clip64(count_in_category(store.items@, k)),
        store.stats.size_by_category@[k] == clip64(sum_in_category(store.items@, k)),
{
}

/// Removal keeps validity: every retained item was an item of the original
/// list, so its confidence bounds still hold.
pub proof fn lemma_retained_valid(items: Seq<ScannedItem>, paths: Seq<Seq<char>>)
    requires
        all_items_valid(items),
    ensures
        all_items_valid(spec_retained(items, paths)),
    decreases items.len(),
{
    if items.len() > 0 {
        assert(all_items_valid(items.drop_last())) by {
            assert(forall|i: int|
                0 <= i < items.drop_last().len() ==> items.drop_last()[i] == items[i]);
        }
        lemma_retained_valid(items.drop_last(), paths);
        let rest = spec_retained(items.drop_last(), paths);
        if !paths.contains(items.last().path@) {
            assert(item_valid(items.last()));
            assert(forall|i: int|
                0 <= i < rest.push(items.last()).len() ==> #[trigger] rest.push(items.last())[i]
                    == if i < rest.len() {
                    rest[i]
                } else {
                    items.last()
                });
        }
    }
}

} // verus!
