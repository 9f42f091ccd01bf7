//! Read-side views over a scan's inventory: category filter tabs, the
//! size-ordered item listing, the selected-size tally and the size
//! distribution used for display.

use vstd::prelude::*;
use vstd::seq_lib::*;
use crate::categories::FileCategory;
use crate::store::ScannedItem;
use crate::store::clip64;
use crate::store::contains_path;
use crate::text::path_views;

verus! {

broadcast use vstd::seq_lib::group_to_multiset_ensures;

/// The filter tabs offered over a scan's results.
#[derive(Debug, Clone, Copy, PartialEq, Eq, Structural)]
pub enum FilterTab {
    All,
    Largest,
    DevArtifacts,
    Caches,
    TempLogs,
    Downloads,
}

pub open spec fn spec_tab_label(t: FilterTab) -> Seq<char> {
    match t {
        FilterTab::All => "All Files"@,
        FilterTab::Largest => "Largest"@,
        FilterTab::DevArtifacts => "Dev Artifacts"@,
        FilterTab::Caches => "Caches"@,
        FilterTab::TempLogs => "Temp & Logs"@,
        FilterTab::Downloads => "Downloads"@,
    }
}

pub open spec fn spec_tab_icon(t: FilterTab) -> Seq<char> {
    match t {
        FilterTab::All => "layers"@,
        FilterTab::Largest => "arrow-down-wide-narrow"@,
        FilterTab::DevArtifacts => "code"@,
        FilterTab::Caches => "database"@,
        FilterTab::TempLogs => "file-text"@,
        FilterTab::Downloads => "download"@,
    }
}

/// Whether an item of the given category belongs on the tab.
pub open spec fn spec_tab_matches(t: FilterTab, c: FileCategory) -> bool {
    match t {
        FilterTab::All => true,
        FilterTab::Largest => true,
        FilterTab::DevArtifacts => c == FileCategory::DevArtifact,
        FilterTab::Caches => c == FileCategory::PackageCache || c == FileCategory::IdeCache || c
            == FileCategory::BrowserCache || c == FileCategory::SystemCache,
        FilterTab::TempLogs => c == FileCategory::TempFile || c == FileCategory::LogFile,
        FilterTab::Downloads => c == FileCategory::OldDownload,
    }
}

impl FilterTab {
    pub fn label(&self) -> (r: &'static str)
        ensures
            r@ == spec_tab_label(*self),
    {
        match self {
            FilterTab::All => "All Files",
            FilterTab::Largest => "Largest",
            FilterTab::DevArtifacts => "Dev Artifacts",
            FilterTab::Caches => "Caches",
            FilterTab::TempLogs => "Temp & Logs",
            FilterTab::Downloads => "Downloads",
        }
    }

    pub fn icon(&self) -> (r: &'static str)
        ensures
            r@ == spec_tab_icon(*self),
    {
        match self {
            FilterTab::All => "layers",
            FilterTab::Largest => "arrow-down-wide-narrow",
            FilterTab::DevArtifacts => "code",
            FilterTab::Caches => "database",
            FilterTab::TempLogs => "file-text",
            FilterTab::Downloads => "download",
        }
    }

    /// Decides `spec_tab_matches`.
    pub fn matches(&self, category: FileCategory) -> (r: bool)
        ensures
            r == spec_tab_matches(*self, category),
    {
        match self {
            FilterTab::All => true,
            FilterTab::Largest => true,
            FilterTab::DevArtifacts => category == FileCategory::DevArtifact,
            FilterTab::Caches => category == FileCategory::PackageCache || category
                == FileCategory::IdeCache || category == FileCategory::BrowserCache || category
                == FileCategory::SystemCache,
            FilterTab::TempLogs => category == FileCategory::TempFile || category
                == FileCategory::LogFile,
            FilterTab::Downloads => category == FileCategory::OldDownload,
        }
    }
}

/// The items of `items` on tab `t`, in their original order.
pub open spec fn spec_tab_items(items: Seq<ScannedItem>, t: FilterTab) -> Seq<ScannedItem>
    decreases items.len(),
{
    if items.len() == 0 {
        Seq::empty()
    } else {
        let rest = spec_tab_items(items.drop_last(), t);
        if spec_tab_matches(t, items.last().category) {
            rest.push(items.last())
        } else {
            rest
        }
    }
}

/// Sorted by size, largest first.
pub open spec fn sorted_by_size_desc(s: Seq<ScannedItem>) -> bool {
    forall|a: int, b: int| 0 <= a < b < s.len() ==> s[a].size >= s[b].size
}

/// The filtered view of the inventory: the items of the chosen tab,
/// ordered largest first (every tab is size-ordered).
pub fn filtered_items(items: &Vec<ScannedItem>, tab: FilterTab) -> (r: Vec<ScannedItem>)
    ensures
        r@.to_multiset() == spec_tab_items(items@, tab).to_multiset(),
        sorted_by_size_desc(r@),
{
    let mut rest: Vec<ScannedItem> = Vec::new();
    let n = items.len();
    let mut i: usize = 0;
    while i < n
        invariant
            0 <= i <= n,
            n == items@.len(),
            rest@ == spec_tab_items(items@.take(i as int), tab),
        decreases n - i,
    {
        proof {
            assert(items@.take(i + 1 as int).drop_last() =~= items@.take(i as int));
            assert(items@.take(i + 1 as int).last() == items@[i as int]);
        }
        if tab.matches(items[i].category) {
            rest.push(items[i].duplicate());
        }
        i += 1;
    }
    proof {
        assert(items@.take(n as int) =~= items@);
    }
    sort_items_by_size_desc(rest)
}

/// Selection sort, largest first: the result holds the same items
/// (as a multiset) in size order.
fn sort_items_by_size_desc(items: Vec<ScannedItem>) -> (r: Vec<ScannedItem>)
    ensures
        r@.to_multiset() == items@.to_multiset(),
        sorted_by_size_desc(r@),
{
    let mut rest = items;
    let mut out: Vec<ScannedItem> = Vec::new();
    proof {
        assert(out@.to_multiset().add(rest@.to_multiset()) =~= rest@.to_multiset());
    }
    while rest.len() > 0
        invariant
            out@.to_multiset().add(rest@.to_multiset()) == items@.to_multiset(),
            sorted_by_size_desc(out@),
            forall|a: int, b: int|
                0 <= a < out@.len() && 0 <= b < rest@.len() ==> out@[a].size >= rest@[b].size,
        decreases rest@.len(),
    {
        let m = index_of_largest(&rest);
        let ghost old_out = out@;
        let ghost old_rest = rest@;
        let x = rest.remove(m);
        out.push(x);
        proof {
            assert(old_rest.remove(m as int).to_multiset() == old_rest.to_multiset().remove(
                old_rest[m as int],
            ));
            assert(out@.to_multiset() == old_out.to_multiset().insert(x));
            assert(out@.to_multiset().add(rest@.to_multiset()) =~= old_out.to_multiset().add(
                old_rest.to_multiset(),
            ));
            assert forall|a: int, b: int|
                0 <= a < b < out@.len() implies out@[a].size >= out@[b].size by {
                if b < old_out.len() {
                    assert(out@[a] == old_out[a] && out@[b] == old_out[b]);
                } else {
                    assert(out@[b] == x);
                    assert(old_rest[m as int] == x);
                }
            }
            assert forall|a: int, b: int|
                0 <= a < out@.len() && 0 <= b < rest@.len() implies out@[a].size
                >= rest@[b].size by {
                if b < m {
                    assert(rest@[b] == old_rest[b]);
                } else {
                    assert(rest@[b] == old_rest[b + 1]);
                }
                if a < old_out.len() {
                    assert(out@[a] == old_out[a]);
                } else {
                    assert(out@[a] == x);
                }
            }
        }
    }
    proof {
        assert(out@.to_multiset().add(rest@.to_multiset()) =~= out@.to_multiset());
    }
    out
}

/// The index of a largest-size item.
fn index_of_largest(items: &Vec<ScannedItem>) -> (m: usize)
    requires
        items@.len() > 0,
    ensures
        0 <= m < items@.len(),
        forall|k: int| 0 <= k < items@.len() ==> items@[m as int].size >= items@[k].size,
{
    let n = items.len();
    let mut m: usize = 0;
    let mut i: usize = 1;
    while i < n
        invariant
            0 <= m < i <= n,
            n == items@.len(),
            forall|k: int| 0 <= k < i ==> items@[m as int].size >= items@[k].size,
        decreases n - i,
    {
        if items[i].size > items[m].size {
            m = i;
        }
        i += 1;
    }
    m
}

/// Sum of the sizes of the items whose path occurs in `selected`.
pub open spec fn spec_selected_size(items: Seq<ScannedItem>, selected: Seq<Seq<char>>) -> int
    decreases items.len(),
{
    if items.len() == 0 {
        0
    } else {
        spec_selected_size(items.drop_last(), selected) + if selected.contains(
            items.last().path@,
        ) {
            items.last().size as int
        } else {
            0int
        }
    }
}

pub proof fn lemma_selected_size_nonneg(items: Seq<ScannedItem>, selected: Seq<Seq<char>>)
    ensures
        spec_selected_size(items, selected) >= 0,
    decreases items.len(),
{
    if items.len() > 0 {
        lemma_selected_size_nonneg(items.drop_last(), selected);
    }
}

/// The summed size of the selected items (saturating at `u64::MAX`).
pub fn selected_size(items: &Vec<ScannedItem>, selected: &Vec<String>) -> (r: u64)
    ensures
        r == clip64(spec_selected_size(items@, path_views(selected@))),
{
    let n = items.len();
    let mut total: u64 = 0;
    let mut i: usize = 0;
    while i < n
        invariant
            0 <= i <= n,
            n == items@.len(),
            total == clip64(spec_selected_size(items@.take(i as int), path_views(selected@))),
        decreases n - i,
    {
        proof {
            assert(items@.take(i + 1 as int).drop_last() =~= items@.take(i as int));
            assert(items@.take(i + 1 as int).last() == items@[i as int]);
            lemma_selected_size_nonneg(items@.take(i as int), path_views(selected@));
        }
        if contains_path(selected, items[i].path.as_str()) {
            total = total.saturating_add(items[i].size);
        }
        i += 1;
    }
    proof {
        assert(items@.take(n as int) =~= items@);
    }
    total
}

/// The sizes of the items, in order.
pub open spec fn sizes_of(items: Seq<ScannedItem>) -> Seq<u64> {
    items.map_values(|it: ScannedItem| it.size)
}

/// Sorted ascending.
pub open spec fn sorted_asc(s: Seq<u64>) -> bool {
    forall|a: int, b: int| 0 <= a < b < s.len() ==> s[a] <= s[b]
}

/// Sum of `s[lo .. hi]`.
pub open spec fn sum_range(s: Seq<u64>, lo: int, hi: int) -> int
    decreases hi - lo,
{
    if hi <= lo {
        0
    } else {
        sum_range(s, lo, hi - 1) + s[hi - 1]
    }
}

pub proof fn lemma_sum_range_nonneg(s: Seq<u64>, lo: int, hi: int)
    requires
        0 <= lo,
        hi <= s.len(),
    ensures
        sum_range(s, lo, hi) >= 0,
    decreases hi - lo,
{
    if hi > lo {
        lemma_sum_range_nonneg(s, lo, hi - 1);
    }
}

/// The chunk width used by the distribution: a tenth of the item count, at
/// least one.
pub open spec fn spec_chunk_width(n: int) -> int {
    if n / 10 == 0 {
        1
    } else {
        n / 10
    }
}

/// The `k`-th distribution bucket over the ascending size sequence.
pub open spec fn spec_bucket(sorted: Seq<u64>, k: int) -> u64 {
    let c = spec_chunk_width(sorted.len() as int);
    let start = k * c;
    let end = if start + c > sorted.len() {
        sorted.len() as int
    } else {
        start + c
    };
    if start >= sorted.len() {
        0u64
    } else {
        clip64(sum_range(sorted, start, end))
    }
}

/// The ten-bucket size distribution shown beside the totals: item sizes
/// sorted ascending, split into ten chunks, each bucket the chunk's sum
/// (all zeros when there are no items).
pub fn size_distribution(items: &Vec<ScannedItem>) -> (r: Vec<u64>)
    ensures
        r@.len() == 10,
        items@.len() == 0 ==> forall|k: int| 0 <= k < 10 ==> r@[k] == 0,
        items@.len() > 0 ==> exists|sorted: Seq<u64>|
            #![trigger sorted_asc(sorted)]
            sorted.to_multiset() == sizes_of(items@).to_multiset() && sorted_asc(sorted)
                && sorted.len() == items@.len() && (forall|k: int|
                0 <= k < 10 ==> r@[k] == spec_bucket(sorted, k)),
{
    let n = items.len();
    if n == 0 {
        let mut r: Vec<u64> = Vec::new();
        let mut k: usize = 0;
        while k < 10
            invariant
                0 <= k <= 10,
                r@.len() == k,
                forall|j: int| 0 <= j < k ==> r@[j] == 0,
            decreases 10 - k,
        {
            r.push(0);
            k += 1;
        }
        return r;
    }
    let mut sizes: Vec<u64> = Vec::new();
    let mut i: usize = 0;
    while i < n
        invariant
            0 <= i <= n,
            n == items@.len(),
            sizes@ == sizes_of(items@.take(i as int)),
        decreases n - i,
    {
        sizes.push(items[i].size);
        proof {
            assert(sizes_of(items@.take(i + 1 as int)) =~= sizes_of(items@.take(i as int)).push(
                items@[i as int].size,
            ));
        }
        i += 1;
    }
    proof {
        assert(items@.take(n as int) =~= items@);
        assert(sizes_of(items@.take(n as int)) =~= sizes_of(items@));
    }
    let sorted = sort_sizes_asc(sizes);
    let chunk: usize = if n / 10 == 0 {
        1
    } else {
        n / 10
    };
    let mut r: Vec<u64> = Vec::new();
    let mut k: usize = 0;
    while k < 10
        invariant
            0 <= k <= 10,
            n == items@.len(),
            n > 0,
            sorted@.len() == n,
            chunk == spec_chunk_width(n as int),
            r@.len() == k,
            forall|j: int| 0 <= j < k ==> r@[j] == spec_bucket(sorted@, j),
        decreases 10 - k,
    {
        proof {
            assert(k * chunk <= 9 * chunk) by (nonlinear_arith)
                requires
                    0 <= k <= 9,
                    chunk >= 0,
            ;
            if n >= 10 {
                assert(9 * (n / 10) <= n);
            }
        }
        let start = k * chunk;
        let bucket: u64 = if start >= n {
            0
        } else {
            let end = if chunk > n - start {
                n
            } else {
                start + chunk
            };
            let mut acc: u64 = 0;
            let mut j = start;
            while j < end
                invariant
                    start <= j <= end,
                    end <= n,
                    n == sorted@.len(),
                    acc == clip64(sum_range(sorted@, start as int, j as int)),
                decreases end - j,
            {
                proof {
                    lemma_sum_range_nonneg(sorted@, start as int, j as int);
                    assert(sum_range(sorted@, start as int, j + 1 as int) == sum_range(
                        sorted@,
                        start as int,
                        j as int,
                    ) + sorted@[j as int]);
                }
                acc = acc.saturating_add(sorted[j]);
                j += 1;
            }
            acc
        };
        r.push(bucket);
        proof {
            assert(r@[k as int] == spec_bucket(sorted@, k as int));
        }
        k += 1;
    }
    proof {
        assert(sorted@.to_multiset() == sizes_of(items@).to_multiset());
        assert(sorted_asc(sorted@));
    }
    r
}

/// Selection sort, smallest first.
fn sort_sizes_asc(sizes: Vec<u64>) -> (r: Vec<u64>)
    ensures
        r@.to_multiset() == sizes@.to_multiset(),
        r@.len() == sizes@.len(),
        sorted_asc(r@),
{
    let mut rest = sizes;
    let mut out: Vec<u64> = Vec::new();
    let ghost whole = rest@;
    proof {
        assert(out@.to_multiset().add(rest@.to_multiset()) =~= rest@.to_multiset());
    }
    while rest.len() > 0
        invariant
            out@.to_multiset().add(rest@.to_multiset()) == whole.to_multiset(),
            out@.len() + rest@.len() == whole.len(),
            sorted_asc(out@),
            forall|a: int, b: int|
                0 <= a < out@.len() && 0 <= b < rest@.len() ==> out@[a] <= rest@[b],
        decreases rest@.len(),
    {
        let m = index_of_smallest(&rest);
        let ghost old_out = out@;
        let ghost old_rest = rest@;
        let x = rest.remove(m);
        out.push(x);
        proof {
            assert(old_rest.remove(m as int).to_multiset() == old_rest.to_multiset().remove(
                old_rest[m as int],
            ));
            assert(out@.to_multiset() == old_out.to_multiset().insert(x));
            assert(out@.to_multiset().add(rest@.to_multiset()) =~= old_out.to_multiset().add(
                old_rest.to_multiset(),
            ));
            assert forall|a: int, b: int| 0 <= a < b < out@.len() implies out@[a] <= out@[b] by {
                if b < old_out.len() {
                    assert(out@[a] == old_out[a] && out@[b] == old_out[b]);
                } else {
                    assert(out@[b] == x);
                    assert(old_rest[m as int] == x);
                }
            }
            assert forall|a: int, b: int|
                0 <= a < out@.len() && 0 <= b < rest@.len() implies out@[a] <= rest@[b] by {
                if b < m {
                    assert(rest@[b] == old_rest[b]);
                } else {
                    assert(rest@[b] == old_rest[b + 1]);
                }
                if a < old_out.len() {
                    assert(out@[a] == old_out[a]);
                } else {
                    assert(out@[a] == x);
                }
            }
        }
    }
    proof {
        assert(out@.to_multiset().add(rest@.to_multiset()) =~= out@.to_multiset());
    }
    out
}

/// The index of a smallest size.
fn index_of_smallest(sizes: &Vec<u64>) -> (m: usize)
    requires
        sizes@.len() > 0,
    ensures
        0 <= m < sizes@.len(),
        forall|k: int| 0 <= k < sizes@.len() ==> sizes@[m as int] <= sizes@[k],
{
    let n = sizes.len();
    let mut m: usize = 0;
    let mut i: usize = 1;
    while i < n
        invariant
            0 <= m < i <= n,
            n == sizes@.len(),
            forall|k: int| 0 <= k < i ==> sizes@[m as int] <= sizes@[k],
        decreases n - i,
    {
        if sizes[i] < sizes[m] {
            m = i;
        }
        i += 1;
    }
    m
}

} // verus!
