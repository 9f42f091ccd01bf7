//! The scan engine: the coordinator that runs the three traversal
//! strategies (known cache paths, project directories, downloads), the
//! per-strategy processing logic with exact contracts over walk snapshots,
//! and the laws that hold of what the engine emits.

use vstd::prelude::*;
use vstd::seq_lib::*;
use crate::categories::DEV_ARTIFACT_CONFIDENCE_CAP;
use crate::categories::FileCategory;
use crate::categories::CategoryPatterns;
use crate::categories::OLD_DOWNLOAD_CONFIDENCE_CAP;
use crate::categories::dev_artifact_dir_names;
use crate::categories::spec_base_confidence;
use crate::classify::spec_capped_confidence;
use crate::classify::classify_file_name;
use crate::classify::is_dev_artifact_name;
use crate::classify::spec_cache_dir_view;
use crate::classify::spec_classify_file_name;
use crate::classify::spec_dev_artifact_view;
use crate::classify::spec_file_item_view;
use crate::classify::spec_is_old_download;
use crate::classify::spec_old_download_view;
use crate::classify::cache_dir_item;
use crate::classify::dev_artifact_item;
use crate::classify::file_item;
use crate::classify::old_download_item;
use crate::config::Config;
use crate::dominance::DominanceTracker;
use crate::dominance::descends;
use crate::dominance::dominated;
use crate::dominance::strictly_descends;
use crate::platform::FsEntry;
use crate::platform::download_dir_path;
use crate::platform::lower_of;
use crate::platform::now_millis;
use crate::platform::now_secs;
use crate::platform::parents_before_children;
use crate::platform::to_lower;
use crate::platform::walk_dir;
use crate::store::ItemView;
use crate::store::ResultStore;
use crate::store::ScanStats;
use crate::store::ScannedItem;
use crate::store::all_items_valid;
use crate::store::clip64;
use crate::store::item_valid;
use crate::store::item_views;
use crate::store::stats_eq;
use crate::store::stats_match;
use crate::text::path_views;

verus! {

/// Minimum recursive size for an immediate child of a system cache root to
/// be reported (1MiB).
pub const SYSTEM_CACHE_MIN_BYTES: u64 = 1024 * 1024;

/// Sum of the sizes of the file entries of a walk.
pub open spec fn spec_sum_file_sizes(entries: Seq<FsEntry>) -> int
    decreases entries.len(),
{
    if entries.len() == 0 {
        0
    } else {
        spec_sum_file_sizes(entries.drop_last()) + if entries.last().is_file {
            entries.last().size as int
        } else {
            0int
        }
    }
}

pub proof fn lemma_sum_file_sizes_nonneg(entries: Seq<FsEntry>)
    ensures
        spec_sum_file_sizes(entries) >= 0,
    decreases entries.len(),
{
    if entries.len() > 0 {
        lemma_sum_file_sizes_nonneg(entries.drop_last());
    }
}

/// Sums the sizes of all file entries, saturating at `u64::MAX`; directory
/// entries contribute nothing.
pub fn sum_file_sizes(entries: &Vec<FsEntry>) -> (s: u64)
    ensures
        s == clip64(spec_sum_file_sizes(entries@)),
{
    let n = entries.len();
    let mut s: u64 = 0;
    let mut i: usize = 0;
    while i < n
        invariant
            0 <= i <= n,
            n == entries@.len(),
            s == clip64(spec_sum_file_sizes(entries@.take(i as int))),
        decreases n - i,
    {
        proof {
            lemma_sum_file_sizes_nonneg(entries@.take(i as int));
            assert(entries@.take(i + 1 as int).drop_last() =~= entries@.take(i as int));
        }
        if entries[i].is_file {
            s = s.saturating_add(entries[i].size);
        }
        i += 1;
    }
    proof {
        assert(entries@.take(n as int) =~= entries@);
    }
    s
}

/// Recursive size of the tree at `path`: the summed sizes of all file
/// entries a fresh walk reports; best-effort (unreadable entries count 0).
pub fn dir_size(path: &str) -> u64 {
    let entries = walk_dir(path, usize::MAX, false);
    sum_file_sizes(&entries)
}

/// The abstraction of an optional item.
pub open spec fn opt_item_view(r: Option<ScannedItem>) -> Option<ItemView> {
    match r {
        Some(item) => Some(item@),
        None => None,
    }
}

/// The item a known-cache-root walk yields: the whole directory, when the
/// walk shows a directory with content.
pub open spec fn spec_cache_root_view(entries: Seq<FsEntry>, category: FileCategory) -> Option<
    ItemView,
> {
    if entries.len() > 0 && entries[0].is_dir && clip64(spec_sum_file_sizes(entries)) > 0 {
        Some(
            spec_cache_dir_view(
                entries[0].path@,
                entries[0].name@,
                clip64(spec_sum_file_sizes(entries)),
                category,
                entries[0].modified,
            ),
        )
    } else {
        None
    }
}

/// The items one category's table emits, given the walk snapshot of each
/// table root: one whole-directory view per root that is a directory with
/// content, in table order.
pub open spec fn spec_cache_group_views(walks: Seq<Seq<FsEntry>>, category: FileCategory) -> Seq<
    ItemView,
>
    decreases walks.len(),
{
    if walks.len() == 0 {
        Seq::empty()
    } else {
        let rest = spec_cache_group_views(walks.drop_last(), category);
        match spec_cache_root_view(walks.last(), category) {
            Some(v) => rest.push(v),
            None => rest,
        }
    }
}

/// What the known-path strategy may append: the package, IDE and browser
/// tables' emissions over some walk snapshots, in that order.
pub open spec fn known_cache_emission(a: Seq<ItemView>) -> bool {
    exists|wp: Seq<Seq<FsEntry>>, wi: Seq<Seq<FsEntry>>, wb: Seq<Seq<FsEntry>>|
        #![trigger spec_cache_group_views(wp, FileCategory::PackageCache), spec_cache_group_views(wi, FileCategory::IdeCache), spec_cache_group_views(wb, FileCategory::BrowserCache)]
        a == spec_cache_group_views(wp, FileCategory::PackageCache) + spec_cache_group_views(
            wi,
            FileCategory::IdeCache,
        ) + spec_cache_group_views(wb, FileCategory::BrowserCache)
}

/// Decides, from one cache root's walk, whether to report the root: it must
/// exist, be a directory, and hold at least one byte.
pub fn cache_root_item(entries: &Vec<FsEntry>, category: FileCategory) -> (r: Option<ScannedItem>)
    ensures
        opt_item_view(r) == spec_cache_root_view(entries@, category),
        r is Some ==> crate::store::item_valid(r->Some_0),
{
    if entries.len() > 0 {
        let root = &entries[0];
        if root.is_dir {
            let size = sum_file_sizes(entries);
            if size > 0 {
                return Some(
                    cache_dir_item(
                        root.path.clone(),
                        root.name.clone(),
                        size,
                        category,
                        root.modified,
                    ),
                );
            }
        }
    }
    None
}

/// The items one system-cache root emits, given its walk (depth at most 1)
/// and each entry's measured size: the depth-1 directory children whose
/// size exceeds the floor, as whole-directory `SystemCache` views, in walk
/// order.
pub open spec fn spec_system_root_views(children: Seq<FsEntry>, sizes: Seq<u64>) -> Seq<ItemView>
    decreases children.len(),
{
    if children.len() == 0 {
        Seq::empty()
    } else {
        let rest = spec_system_root_views(children.drop_last(), sizes.drop_last());
        let c = children.last();
        let size = if sizes.len() > 0 {
            sizes.last()
        } else {
            0u64
        };
        if c.depth == 1 && c.is_dir && size > SYSTEM_CACHE_MIN_BYTES {
            rest.push(
                spec_cache_dir_view(c.path@, c.name@, size, FileCategory::SystemCache, c.modified),
            )
        } else {
            rest
        }
    }
}

/// The system-cache strategy's emissions over the walks that were made,
/// root by root.
pub open spec fn spec_system_scan_views(walks: Seq<Seq<FsEntry>>, sizess: Seq<Seq<u64>>) -> Seq<
    ItemView,
>
    decreases walks.len(),
{
    if walks.len() == 0 {
        Seq::empty()
    } else {
        spec_system_scan_views(walks.drop_last(), sizess.drop_last()) + spec_system_root_views(
            walks.last(),
            if sizess.len() > 0 {
                sizess.last()
            } else {
                Seq::empty()
            },
        )
    }
}

/// What the system-cache strategy may append: some roots' emissions, in
/// root order.
pub open spec fn system_cache_emission(b: Seq<ItemView>) -> bool {
    exists|walks: Seq<Seq<FsEntry>>, sizess: Seq<Seq<u64>>|
        #![trigger spec_system_scan_views(walks, sizess)]
        b == spec_system_scan_views(walks, sizess)
}

/// Decides whether one immediate child of a system cache root is reported:
/// only when its recursive size exceeds the 1MiB floor.
pub fn system_cache_child_item(child: &FsEntry, size: u64) -> (r: Option<ScannedItem>)
    ensures
        size > SYSTEM_CACHE_MIN_BYTES ==> opt_item_view(r) == Some(
            spec_cache_dir_view(
                child.path@,
                child.name@,
                size,
                FileCategory::SystemCache,
                child.modified,
            ),
        ),
        size <= SYSTEM_CACHE_MIN_BYTES ==> r is None,
        r is Some ==> crate::store::item_valid(r->Some_0),
{
    if size > SYSTEM_CACHE_MIN_BYTES {
        Some(
            cache_dir_item(
                child.path.clone(),
                child.name.clone(),
                size,
                FileCategory::SystemCache,
                child.modified,
            ),
        )
    } else {
        None
    }
}

/// A sequence is a prefix of itself extended by anything.
pub proof fn lemma_prefix_concat(a: Seq<ItemView>, b: Seq<ItemView>)
    ensures
        a.is_prefix_of(a + b),
{
    assert((a + b).subrange(0, a.len() as int) =~= a);
}

/// Every sequence is a prefix of itself.
pub proof fn lemma_prefix_refl(a: Seq<ItemView>)
    ensures
        a.is_prefix_of(a),
{
    assert(a =~= a.subrange(0, a.len() as int));
}

/// Appending keeps an existing prefix.
pub proof fn lemma_prefix_push(a: Seq<ItemView>, b: Seq<ItemView>, x: ItemView)
    requires
        a.is_prefix_of(b),
    ensures
        a.is_prefix_of(b.push(x)),
{
    assert(b.push(x).subrange(0, a.len() as int) =~= b.subrange(0, a.len() as int));
}

/// Prefixes compose.
pub proof fn lemma_prefix_transitive(a: Seq<ItemView>, b: Seq<ItemView>, c: Seq<ItemView>)
    requires
        a.is_prefix_of(b),
        b.is_prefix_of(c),
    ensures
        a.is_prefix_of(c),
{
    assert(c.subrange(0, b.len() as int).subrange(0, a.len() as int) =~= c.subrange(
        0,
        a.len() as int,
    ));
}

/// `item_views` distributes over `push`.
pub proof fn lemma_item_views_push(s: Seq<ScannedItem>, x: ScannedItem)
    ensures
        item_views(s.push(x)) =~= item_views(s).push(x@),
{
}

/// The scan coordinator: owns the configuration, the result store, the
/// dominance tracker, the cancellation flag and the progress counters, and
/// drives the three traversal strategies.
pub struct Scanner {
    pub config: Config,
    pub store: ResultStore,
    pub dominance: DominanceTracker,
    pub scanning: bool,
    pub stop_requested: bool,
    pub files_visited: u64,
    pub current: String,
}

impl Scanner {
    /// The scanner's invariant: the store's list and statistics agree and
    /// every held item is valid.
    pub open spec fn wf(&self) -> bool {
        self.store.wf()
    }

    pub fn new(config: Config) -> (s: Scanner)
        ensures
            s.wf(),
            s.config == config,
            s.store.items@.len() == 0,
            s.store.stats.duration_ms == 0,
            s.scanning == false,
            s.stop_requested == false,
            s.files_visited == 0,
            s.current@.len() == 0,
            s.dominance.roots@.len() == 0,
    {
        Scanner {
            config,
            store: ResultStore::new(),
            dominance: DominanceTracker::new(),
            scanning: false,
            stop_requested: false,
            files_visited: 0,
            current: String::new(),
        }
    }

    /// Whether a scan is in flight (advisory, not an enforced mutex).
    pub fn is_scanning(&self) -> (r: bool)
        ensures
            r == self.scanning,
    {
        self.scanning
    }

    /// How many entries the project walk has visited, for progress display.
    pub fn files_scanned(&self) -> (r: u64)
        ensures
            r == self.files_visited,
    {
        self.files_visited
    }

    /// The path most recently visited, for progress display.
    pub fn current_path(&self) -> (r: String)
        ensures
            r@ == self.current@,
    {
        self.current.clone()
    }

    /// Requests cooperative cancellation: strategies poll this flag and a
    /// set flag keeps them from beginning any new top-level root.
    pub fn request_stop(&mut self)
        ensures
            final(self).stop_requested == true,
            final(self).config == old(self).config,
            final(self).store == old(self).store,
            final(self).dominance == old(self).dominance,
            final(self).scanning == old(self).scanning,
            final(self).files_visited == old(self).files_visited,
            final(self).current == old(self).current,
    {
        self.stop_requested = true;
    }

    /// A snapshot of the discovered items (a defensive copy).
    pub fn get_items(&self) -> (r: Vec<ScannedItem>)
        ensures
            r@ == self.store.items@,
    {
        self.store.get_items()
    }

    /// A snapshot of the aggregate statistics (a defensive copy).
    pub fn get_stats(&self) -> (r: ScanStats)
        ensures
            stats_eq(r, self.store.stats),
    {
        self.store.get_stats()
    }

    fn update_current_path(&mut self, path: &str)
        ensures
            final(self).current@ == path@,
            final(self).config == old(self).config,
            final(self).store == old(self).store,
            final(self).dominance == old(self).dominance,
            final(self).scanning == old(self).scanning,
            final(self).stop_requested == old(self).stop_requested,
            final(self).files_visited == old(self).files_visited,
    {
        self.current = path.to_owned();
    }

    /// Walks one known cache root and reports it whole when it is a
    /// directory with content; the emitted item (if any) is the decision of
    /// `cache_root_item` on the walk's snapshot.
    fn scan_cache_root(&mut self, path: &str, category: FileCategory)
        requires
            old(self).wf(),
        ensures
            final(self).wf(),
            item_views(old(self).store.items@).is_prefix_of(item_views(final(self).store.items@)),
            exists|entries: Seq<FsEntry>|
                #![trigger spec_cache_root_view(entries, category)]
                match spec_cache_root_view(entries, category) {
                    Some(v) => item_views(final(self).store.items@) == item_views(
                        old(self).store.items@,
                    ).push(v),
                    None => final(self).store.items@ == old(self).store.items@,
                },
            final(self).config == old(self).config,
            final(self).dominance == old(self).dominance,
            final(self).scanning == old(self).scanning,
            final(self).stop_requested == old(self).stop_requested,
            final(self).files_visited == old(self).files_visited,
            final(self).store.stats.duration_ms == old(self).store.stats.duration_ms,
    {
        let entries = walk_dir(path, usize::MAX, false);
        match cache_root_item(&entries, category) {
            Some(item) => {
                proof {
                    lemma_item_views_push(self.store.items@, item);
                }
                self.store.add_item(item);
                proof {
                    lemma_prefix_refl(item_views(old(self).store.items@));
                    lemma_prefix_push(
                        item_views(old(self).store.items@),
                        item_views(old(self).store.items@),
                        item@,
                    );
                    assert(match spec_cache_root_view(entries@, category) {
                        Some(v) => item_views(self.store.items@) == item_views(
                            old(self).store.items@,
                        ).push(v),
                        None => self.store.items@ == old(self).store.items@,
                    });
                }
            },
            None => {
                proof {
                    lemma_prefix_refl(item_views(self.store.items@));
                    assert(match spec_cache_root_view(entries@, category) {
                        Some(v) => item_views(self.store.items@) == item_views(
                            old(self).store.items@,
                        ).push(v),
                        None => self.store.items@ == old(self).store.items@,
                    });
                }
            },
        }
    }

    /// Walks each path of one category's table, reporting each existing
    /// directory with content; a set stop flag ends the loop before the
    /// next root.  The appended items are exactly the table's emissions
    /// over the walks that were made.
    fn scan_cache_group(&mut self, paths: &Vec<String>, category: FileCategory)
        requires
            old(self).wf(),
        ensures
            final(self).wf(),
            item_views(old(self).store.items@).is_prefix_of(item_views(final(self).store.items@)),
            old(self).stop_requested ==> final(self).store.items@ == old(self).store.items@,
            exists|walks: Seq<Seq<FsEntry>>|
                #![trigger spec_cache_group_views(walks, category)]
                item_views(final(self).store.items@) == item_views(old(self).store.items@)
                    + spec_cache_group_views(walks, category),
            final(self).config == old(self).config,
            final(self).dominance == old(self).dominance,
            final(self).scanning == old(self).scanning,
            final(self).stop_requested == old(self).stop_requested,
            final(self).files_visited == old(self).files_visited,
            final(self).store.stats.duration_ms == old(self).store.stats.duration_ms,
    {
        let n = paths.len();
        let mut i: usize = 0;
        let ghost mut walks: Seq<Seq<FsEntry>> = Seq::empty();
        proof {
            lemma_prefix_refl(item_views(self.store.items@));
            assert(item_views(self.store.items@) =~= item_views(self.store.items@)
                + spec_cache_group_views(walks, category));
        }
        while i < n
            invariant
                0 <= i <= n,
                n == paths@.len(),
                self.wf(),
                item_views(old(self).store.items@).is_prefix_of(item_views(self.store.items@)),
                old(self).stop_requested ==> self.store.items@ == old(self).store.items@,
                item_views(self.store.items@) == item_views(old(self).store.items@)
                    + spec_cache_group_views(walks, category),
                self.config == old(self).config,
                self.dominance == old(self).dominance,
                self.scanning == old(self).scanning,
                self.stop_requested == old(self).stop_requested,
                self.files_visited == old(self).files_visited,
                self.store.stats.duration_ms == old(self).store.stats.duration_ms,
            decreases n - i,
        {
            if self.stop_requested {
                return;
            }
            self.update_current_path(paths[i].as_str());
            let p = paths[i].clone();
            let ghost before_items = self.store.items@;
            let ghost before = item_views(self.store.items@);
            self.scan_cache_root(p.as_str(), category);
            proof {
                lemma_prefix_transitive(
                    item_views(old(self).store.items@),
                    before,
                    item_views(self.store.items@),
                );
                let w = choose|entries: Seq<FsEntry>|
                    #![trigger spec_cache_root_view(entries, category)]
                    match spec_cache_root_view(entries, category) {
                        Some(v) => item_views(self.store.items@) == item_views(before_items).push(
                            v,
                        ),
                        None => self.store.items@ == before_items,
                    };
                let walks1 = walks.push(w);
                assert(walks1.drop_last() =~= walks);
                match spec_cache_root_view(w, category) {
                    Some(v) => {
                        assert(spec_cache_group_views(walks1, category) == spec_cache_group_views(
                            walks,
                            category,
                        ).push(v));
                        assert((item_views(old(self).store.items@) + spec_cache_group_views(
                            walks,
                            category,
                        )).push(v) =~= item_views(old(self).store.items@)
                            + spec_cache_group_views(walks, category).push(v));
                    },
                    None => {},
                }
                walks = walks1;
            }
            i += 1;
        }
    }

    /// The known-path traversal strategy: package caches, IDE caches and
    /// browser caches are reported as whole directories.  The appended
    /// items are exactly the three tables' emissions over the walks that
    /// were made.
    pub fn scan_known_cache_paths(&mut self)
        requires
            old(self).wf(),
        ensures
            final(self).wf(),
            item_views(old(self).store.items@).is_prefix_of(item_views(final(self).store.items@)),
            old(self).stop_requested ==> final(self).store.items@ == old(self).store.items@,
            exists|a: Seq<ItemView>|
                #![trigger known_cache_emission(a)]
                item_views(final(self).store.items@) == item_views(old(self).store.items@) + a
                    && known_cache_emission(a),
            final(self).config == old(self).config,
            final(self).dominance == old(self).dominance,
            final(self).scanning == old(self).scanning,
            final(self).stop_requested == old(self).stop_requested,
            final(self).files_visited == old(self).files_visited,
            final(self).store.stats.duration_ms == old(self).store.stats.duration_ms,
    {
        if self.stop_requested {
            proof {
                lemma_prefix_refl(item_views(self.store.items@));
                let e = Seq::<Seq<FsEntry>>::empty();
                let a = spec_cache_group_views(e, FileCategory::PackageCache)
                    + spec_cache_group_views(e, FileCategory::IdeCache) + spec_cache_group_views(
                    e,
                    FileCategory::BrowserCache,
                );
                assert(known_cache_emission(a));
                assert(item_views(self.store.items@) =~= item_views(self.store.items@) + a);
            }
            return;
        }
        let ghost s0 = item_views(self.store.items@);
        let package = CategoryPatterns::package_cache_paths();
        self.scan_cache_group(&package, FileCategory::PackageCache);
        let ghost s1 = item_views(self.store.items@);
        let ghost wp = choose|walks: Seq<Seq<FsEntry>>|
            #![trigger spec_cache_group_views(walks, FileCategory::PackageCache)]
            s1 == s0 + spec_cache_group_views(walks, FileCategory::PackageCache);
        let ide = CategoryPatterns::ide_cache_paths();
        self.scan_cache_group(&ide, FileCategory::IdeCache);
        proof {
            lemma_prefix_transitive(
                item_views(old(self).store.items@),
                s1,
                item_views(self.store.items@),
            );
        }
        let ghost s2 = item_views(self.store.items@);
        let ghost wi = choose|walks: Seq<Seq<FsEntry>>|
            #![trigger spec_cache_group_views(walks, FileCategory::IdeCache)]
            s2 == s1 + spec_cache_group_views(walks, FileCategory::IdeCache);
        let browser = CategoryPatterns::browser_cache_paths();
        self.scan_cache_group(&browser, FileCategory::BrowserCache);
        proof {
            lemma_prefix_transitive(
                item_views(old(self).store.items@),
                s2,
                item_views(self.store.items@),
            );
            let s3 = item_views(self.store.items@);
            let wb = choose|walks: Seq<Seq<FsEntry>>|
                #![trigger spec_cache_group_views(walks, FileCategory::BrowserCache)]
                s3 == s2 + spec_cache_group_views(walks, FileCategory::BrowserCache);
            let a = spec_cache_group_views(wp, FileCategory::PackageCache)
                + spec_cache_group_views(wi, FileCategory::IdeCache) + spec_cache_group_views(
                wb,
                FileCategory::BrowserCache,
            );
            assert(known_cache_emission(a));
            assert(s3 =~= s0 + a);
        }
    }

    /// Walks one system-cache root at depth 1 and reports each directory
    /// child whose measured recursive size exceeds the 1MiB floor.  The
    /// appended items are exactly `spec_system_root_views` of the walk and
    /// the measured sizes.
    fn scan_system_cache_root(&mut self, root: &str)
        requires
            old(self).wf(),
        ensures
            final(self).wf(),
            item_views(old(self).store.items@).is_prefix_of(item_views(final(self).store.items@)),
            exists|children: Seq<FsEntry>, sizes: Seq<u64>|
                #![trigger spec_system_root_views(children, sizes)]
                item_views(final(self).store.items@) == item_views(old(self).store.items@)
                    + spec_system_root_views(children, sizes),
            final(self).config == old(self).config,
            final(self).dominance == old(self).dominance,
            final(self).scanning == old(self).scanning,
            final(self).stop_requested == old(self).stop_requested,
            final(self).files_visited == old(self).files_visited,
            final(self).store.stats.duration_ms == old(self).store.stats.duration_ms,
    {
        let children = walk_dir(root, 1, false);
        let m = children.len();
        let mut j: usize = 0;
        let ghost mut sizes: Seq<u64> = Seq::empty();
        proof {
            lemma_prefix_refl(item_views(self.store.items@));
            assert(item_views(self.store.items@) =~= item_views(self.store.items@)
                + spec_system_root_views(children@.take(0), sizes));
        }
        while j < m
            invariant
                0 <= j <= m,
                m == children@.len(),
                self.wf(),
                sizes.len() == j,
                item_views(old(self).store.items@).is_prefix_of(item_views(self.store.items@)),
                item_views(self.store.items@) == item_views(old(self).store.items@)
                    + spec_system_root_views(children@.take(j as int), sizes),
                self.config == old(self).config,
                self.dominance == old(self).dominance,
                self.scanning == old(self).scanning,
                self.stop_requested == old(self).stop_requested,
                self.files_visited == old(self).files_visited,
                self.store.stats.duration_ms == old(self).store.stats.duration_ms,
            decreases m - j,
        {
            proof {
                assert(children@.take(j + 1 as int).drop_last() =~= children@.take(j as int));
                assert(children@.take(j + 1 as int).last() == children@[j as int]);
            }
            let child = &children[j];
            if child.depth == 1 && child.is_dir {
                let size = dir_size(child.path.as_str());
                match system_cache_child_item(child, size) {
                    Some(item) => {
                        let ghost before = item_views(self.store.items@);
                        proof {
                            lemma_item_views_push(self.store.items@, item);
                        }
                        self.store.add_item(item);
                        proof {
                            lemma_prefix_push(item_views(old(self).store.items@), before, item@);
                            let sizes1 = sizes.push(size);
                            assert(sizes1.drop_last() =~= sizes);
                            assert((item_views(old(self).store.items@) + spec_system_root_views(
                                children@.take(j as int),
                                sizes,
                            )).push(item@) =~= item_views(old(self).store.items@)
                                + spec_system_root_views(children@.take(j as int), sizes).push(
                                item@,
                            ));
                            sizes = sizes1;
                        }
                    },
                    None => {
                        proof {
                            let sizes1 = sizes.push(size);
                            assert(sizes1.drop_last() =~= sizes);
                            sizes = sizes1;
                        }
                    },
                }
            } else {
                proof {
                    let sizes1 = sizes.push(0u64);
                    assert(sizes1.drop_last() =~= sizes);
                    sizes = sizes1;
                }
            }
            j += 1;
        }
        proof {
            assert(children@.take(m as int) =~= children@);
        }
    }

    /// The system-cache strategy: only immediate children (depth 1) of each
    /// system cache root are measured, and reported individually when they
    /// exceed the 1MiB floor.  The appended items are exactly the roots'
    /// emissions over the walks that were made.
    pub fn scan_system_caches(&mut self)
        requires
            old(self).wf(),
        ensures
            final(self).wf(),
            item_views(old(self).store.items@).is_prefix_of(item_views(final(self).store.items@)),
            old(self).stop_requested ==> final(self).store.items@ == old(self).store.items@,
            exists|b: Seq<ItemView>|
                #![trigger system_cache_emission(b)]
                item_views(final(self).store.items@) == item_views(old(self).store.items@) + b
                    && system_cache_emission(b),
            final(self).config == old(self).config,
            final(self).dominance == old(self).dominance,
            final(self).scanning == old(self).scanning,
            final(self).stop_requested == old(self).stop_requested,
            final(self).files_visited == old(self).files_visited,
            final(self).store.stats.duration_ms == old(self).store.stats.duration_ms,
    {
        let ghost mut walks: Seq<Seq<FsEntry>> = Seq::empty();
        let ghost mut sizess: Seq<Seq<u64>> = Seq::empty();
        proof {
            lemma_prefix_refl(item_views(self.store.items@));
            assert(item_views(self.store.items@) =~= item_views(self.store.items@)
                + spec_system_scan_views(walks, sizess));
        }
        if self.stop_requested {
            proof {
                let b = spec_system_scan_views(walks, sizess);
                assert(system_cache_emission(b));
            }
            return;
        }
        let roots = CategoryPatterns::system_cache_paths();
        let n = roots.len();
        let mut i: usize = 0;
        while i < n
            invariant
                0 <= i <= n,
                n == roots@.len(),
                self.wf(),
                item_views(old(self).store.items@).is_prefix_of(item_views(self.store.items@)),
                old(self).stop_requested ==> self.store.items@ == old(self).store.items@,
                item_views(self.store.items@) == item_views(old(self).store.items@)
                    + spec_system_scan_views(walks, sizess),
                self.config == old(self).config,
                self.dominance == old(self).dominance,
                self.scanning == old(self).scanning,
                self.stop_requested == old(self).stop_requested,
                self.files_visited == old(self).files_visited,
                self.store.stats.duration_ms == old(self).store.stats.duration_ms,
            decreases n - i,
        {
            if self.stop_requested {
                proof {
                    let b = spec_system_scan_views(walks, sizess);
                    assert(system_cache_emission(b));
                }
                return;
            }
            self.update_current_path(roots[i].as_str());
            let ghost before_items = self.store.items@;
            let ghost before = item_views(self.store.items@);
            self.scan_system_cache_root(roots[i].as_str());
            proof {
                lemma_prefix_transitive(
                    item_views(old(self).store.items@),
                    before,
                    item_views(self.store.items@),
                );
                let (children, sizes) = choose|children: Seq<FsEntry>, sizes: Seq<u64>|
                    #![trigger spec_system_root_views(children, sizes)]
                    item_views(self.store.items@) == item_views(before_items)
                        + spec_system_root_views(children, sizes);
                let walks1 = walks.push(children);
                let sizess1 = sizess.push(sizes);
                assert(walks1.drop_last() =~= walks);
                assert(sizess1.drop_last() =~= sizess);
                assert(spec_system_scan_views(walks1, sizess1) == spec_system_scan_views(
                    walks,
                    sizess,
                ) + spec_system_root_views(children, sizes));
                assert((item_views(old(self).store.items@) + spec_system_scan_views(
                    walks,
                    sizess,
                )) + spec_system_root_views(children, sizes) =~= item_views(
                    old(self).store.items@,
                ) + (spec_system_scan_views(walks, sizess) + spec_system_root_views(
                    children,
                    sizes,
                )));
                walks = walks1;
                sizess = sizess1;
            }
            i += 1;
        }
        proof {
            let b = spec_system_scan_views(walks, sizess);
            assert(system_cache_emission(b));
        }
    }
}

/// The items the downloads strategy emits from one walk snapshot: one item
/// for each depth-1 file modified strictly earlier than now − 30 days, in
/// walk order.  A file whose modified time is unavailable (reported as 0)
/// is never flagged.
pub open spec fn spec_downloads_views(entries: Seq<FsEntry>, now: u64) -> Seq<ItemView>
    decreases entries.len(),
{
    if entries.len() == 0 {
        Seq::empty()
    } else {
        let rest = spec_downloads_views(entries.drop_last(), now);
        let e = entries.last();
        if e.depth == 1 && e.is_file && e.modified > 0 && spec_is_old_download(now, e.modified) {
            rest.push(spec_old_download_view(e.path@, e.name@, e.size, e.modified, now))
        } else {
            rest
        }
    }
}

impl Scanner {
    /// Processes one downloads-directory walk: appends exactly the items
    /// `spec_downloads_views` describes.
    pub fn process_downloads_entries(&mut self, entries: &Vec<FsEntry>, now: u64)
        requires
            old(self).wf(),
        ensures
            final(self).wf(),
            item_views(final(self).store.items@) == item_views(old(self).store.items@)
                + spec_downloads_views(entries@, now),
            final(self).config == old(self).config,
            final(self).dominance == old(self).dominance,
            final(self).scanning == old(self).scanning,
            final(self).stop_requested == old(self).stop_requested,
            final(self).files_visited == old(self).files_visited,
            final(self).current == old(self).current,
            final(self).store.stats.duration_ms == old(self).store.stats.duration_ms,
    {
        let n = entries.len();
        let mut i: usize = 0;
        proof {
            assert(item_views(self.store.items@) =~= item_views(self.store.items@)
                + spec_downloads_views(entries@.take(0), now));
        }
        while i < n
            invariant
                0 <= i <= n,
                n == entries@.len(),
                self.wf(),
                item_views(self.store.items@) == item_views(old(self).store.items@)
                    + spec_downloads_views(entries@.take(i as int), now),
                self.config == old(self).config,
                self.dominance == old(self).dominance,
                self.scanning == old(self).scanning,
                self.stop_requested == old(self).stop_requested,
                self.files_visited == old(self).files_visited,
                self.current == old(self).current,
                self.store.stats.duration_ms == old(self).store.stats.duration_ms,
            decreases n - i,
        {
            proof {
                assert(entries@.take(i + 1 as int).drop_last() =~= entries@.take(i as int));
                assert(entries@.take(i + 1 as int).last() == entries@[i as int]);
            }
            let e = &entries[i];
            if e.depth == 1 && e.is_file && e.modified > 0
                && crate::classify::is_old_download(now, e.modified) {
                let item = old_download_item(e.path.clone(), e.name.clone(), e.size, e.modified, now);
                proof {
                    lemma_item_views_push(self.store.items@, item);
                }
                self.store.add_item(item);
                proof {
                    assert((item_views(old(self).store.items@) + spec_downloads_views(
                        entries@.take(i as int),
                        now,
                    )).push(item@) =~= item_views(old(self).store.items@) + spec_downloads_views(
                        entries@.take(i as int),
                        now,
                    ).push(item@));
                }
            }
            i += 1;
        }
        proof {
            assert(entries@.take(n as int) =~= entries@);
        }
    }

    /// The downloads strategy: enumerates immediate children of the
    /// downloads directory and reports each file strictly older than 30
    /// days; a set stop flag keeps it from enumerating at all.
    pub fn scan_downloads(&mut self)
        requires
            old(self).wf(),
        ensures
            final(self).wf(),
            item_views(old(self).store.items@).is_prefix_of(item_views(final(self).store.items@)),
            old(self).stop_requested ==> final(self).store.items@ == old(self).store.items@,
            exists|entries: Seq<FsEntry>, now: u64|
                #![trigger spec_downloads_views(entries, now)]
                item_views(final(self).store.items@) == item_views(old(self).store.items@)
                    + spec_downloads_views(entries, now),
            final(self).config == old(self).config,
            final(self).dominance == old(self).dominance,
            final(self).scanning == old(self).scanning,
            final(self).stop_requested == old(self).stop_requested,
            final(self).files_visited == old(self).files_visited,
            final(self).store.stats.duration_ms == old(self).store.stats.duration_ms,
    {
        proof {
            lemma_prefix_refl(item_views(self.store.items@));
            assert(item_views(self.store.items@) =~= item_views(self.store.items@)
                + spec_downloads_views(Seq::<FsEntry>::empty(), 0));
        }
        if self.stop_requested {
            return;
        }
        let downloads = match download_dir_path() {
            None => {
                return;
            },
            Some(d) => d,
        };
        let entries = walk_dir(downloads.as_str(), 1, false);
        if entries.len() == 0 {
            return;
        }
        self.update_current_path(downloads.as_str());
        let now = now_secs();
        self.process_downloads_entries(&entries, now);
        proof {
            lemma_prefix_concat(
                item_views(old(self).store.items@),
                spec_downloads_views(entries@, now),
            );
        }
    }
}

/// State of the project walk: emitted temp/log item views, artifact
/// directory entries pending size computation (their paths are the recorded
/// dominance roots), and the visited-entry tally.
pub ghost struct ProjectScan {
    pub file_items: Seq<ItemView>,
    pub pending: Seq<FsEntry>,
    pub visited: int,
}

/// The paths of the pending artifact entries.
pub open spec fn roots_of(pending: Seq<FsEntry>) -> Seq<Seq<char>> {
    pending.map_values(|e: FsEntry| e.path@)
}

/// One step of the project walk over entry `e`.  `roots0` holds the roots
/// recorded before this walk began.  A dominated entry is skipped entirely;
/// any other entry is counted, then a directory with a dev-artifact name is
/// recorded and deferred, and a non-empty file with a temp or log suffix
/// (on its lowercased name) is emitted at once.
pub open spec fn spec_project_step(st: ProjectScan, e: FsEntry, roots0: Seq<Seq<char>>) -> ProjectScan {
    let roots = roots0 + roots_of(st.pending);
    if dominated(e.path@, roots) {
        st
    } else {
        let visited = st.visited + 1;
        if e.is_dir && dev_artifact_dir_names().contains(e.name@) {
            ProjectScan { file_items: st.file_items, pending: st.pending.push(e), visited }
        } else if e.is_file && e.size > 0 && spec_classify_file_name(lower_of(e.name@)) is Some {
            ProjectScan {
                file_items: st.file_items.push(
                    spec_file_item_view(
                        e.path@,
                        e.name@,
                        e.size,
                        spec_classify_file_name(lower_of(e.name@))->Some_0,
                        e.modified,
                    ),
                ),
                pending: st.pending,
                visited,
            }
        } else {
            ProjectScan { file_items: st.file_items, pending: st.pending, visited }
        }
    }
}

/// The project walk folded over a whole entry list.
pub open spec fn spec_project_walk(entries: Seq<FsEntry>, roots0: Seq<Seq<char>>) -> ProjectScan
    decreases entries.len(),
{
    if entries.len() == 0 {
        ProjectScan { file_items: Seq::empty(), pending: Seq::empty(), visited: 0 }
    } else {
        spec_project_step(spec_project_walk(entries.drop_last(), roots0), entries.last(), roots0)
    }
}

pub proof fn lemma_project_walk_visited_nonneg(entries: Seq<FsEntry>, roots0: Seq<Seq<char>>)
    ensures
        spec_project_walk(entries, roots0).visited >= 0,
    decreases entries.len(),
{
    if entries.len() > 0 {
        lemma_project_walk_visited_nonneg(entries.drop_last(), roots0);
    }
}

/// `path` is the path of one of `entries`.
pub open spec fn stems_from(path: Seq<char>, entries: Seq<FsEntry>) -> bool {
    exists|j: int| 0 <= j < entries.len() && path == #[trigger] entries[j].path@
}

/// Everything a project walk emits or records stems from one of the walk's
/// entries, and none of it descends from a root recorded before the walk
/// began.
pub proof fn lemma_project_walk_origins(entries: Seq<FsEntry>, roots0: Seq<Seq<char>>)
    ensures
        ({
            let st = spec_project_walk(entries, roots0);
            &&& forall|a: int|
                0 <= a < st.file_items.len() ==> stems_from(#[trigger] st.file_items[a].path, entries)
            &&& forall|b: int|
                0 <= b < st.pending.len() ==> stems_from(#[trigger] st.pending[b].path@, entries)
            &&& forall|a: int, r: int|
                0 <= a < st.file_items.len() && 0 <= r < roots0.len() ==> !(#[trigger] descends(
                    st.file_items[a].path,
                    roots0[r],
                ))
            &&& forall|b: int, r: int|
                0 <= b < st.pending.len() && 0 <= r < roots0.len() ==> !(#[trigger] descends(
                    st.pending[b].path@,
                    roots0[r],
                ))
        }),
    decreases entries.len(),
{
    let st = spec_project_walk(entries, roots0);
    if entries.len() == 0 {
    } else {
        let s = entries.drop_last();
        let e = entries.last();
        let st0 = spec_project_walk(s, roots0);
        lemma_project_walk_origins(s, roots0);
        assert forall|p: Seq<char>| stems_from(p, s) implies stems_from(p, entries) by {
            let j = choose|j: int| 0 <= j < s.len() && p == s[j].path@;
            assert(entries[j].path@ == p);
        }
        let roots = roots0 + roots_of(st0.pending);
        if dominated(e.path@, roots) {
        } else {
            assert(entries[entries.len() - 1].path@ == e.path@);
            assert(stems_from(e.path@, entries));
            if e.is_dir && dev_artifact_dir_names().contains(e.name@) {
                assert forall|r: int| 0 <= r < roots0.len() implies !descends(e.path@, roots0[r]) by {
                    assert(roots[r] == roots0[r]);
                }
            } else if e.is_file && e.size > 0 && spec_classify_file_name(lower_of(e.name@)) is Some {
                assert forall|r: int| 0 <= r < roots0.len() implies !descends(e.path@, roots0[r]) by {
                    assert(roots[r] == roots0[r]);
                }
            }
        }
    }
}

/// Dominance: in one project walk over entries listed parents before
/// children, nothing emitted lies strictly below any recorded artifact
/// root — neither a temp/log file item nor another artifact root (and the
/// artifact items of the deferred batch take the recorded roots' own paths,
/// so the same holds of them).
pub proof fn lemma_project_walk_dominance(entries: Seq<FsEntry>, roots0: Seq<Seq<char>>)
    requires
        parents_before_children(entries),
    ensures
        ({
            let st = spec_project_walk(entries, roots0);
            &&& forall|a: int, b: int|
                0 <= a < st.file_items.len() && 0 <= b < st.pending.len()
                    ==> !(#[trigger] strictly_descends(
                    st.file_items[a].path,
                    st.pending[b].path@,
                ))
            &&& forall|a: int, b: int|
                0 <= a < st.pending.len() && 0 <= b < st.pending.len() && a != b
                    ==> !(#[trigger] strictly_descends(
                    st.pending[a].path@,
                    st.pending[b].path@,
                ))
        }),
    decreases entries.len(),
{
    let st = spec_project_walk(entries, roots0);
    if entries.len() == 0 {
    } else {
        let s = entries.drop_last();
        let e = entries.last();
        let n = entries.len() - 1;
        let st0 = spec_project_walk(s, roots0);
        assert(parents_before_children(s)) by {
            assert forall|i: int, j: int|
                0 <= i < s.len() && 0 <= j < s.len() && strictly_descends(
                    s[i].path@,
                    s[j].path@,
                ) implies j < i by {
                assert(s[i] == entries[i]);
                assert(s[j] == entries[j]);
            }
        }
        lemma_project_walk_dominance(s, roots0);
        lemma_project_walk_origins(s, roots0);
        let roots = roots0 + roots_of(st0.pending);
        if dominated(e.path@, roots) {
        } else if e.is_dir && dev_artifact_dir_names().contains(e.name@) {
            // Recording a new root: nothing already emitted can lie below
            // it, because its entry came later in a parents-first listing.
            assert(e == entries[n]);
            assert forall|a: int|
                0 <= a < st0.file_items.len() implies !strictly_descends(
                st0.file_items[a].path,
                e.path@,
            ) by {
                let j = choose|j: int| 0 <= j < s.len() && st0.file_items[a].path == s[j].path@;
                assert(entries[j].path@ == st0.file_items[a].path);
                if strictly_descends(entries[j].path@, entries[n].path@) {
                    assert(n < j);
                }
            }
            assert forall|b: int|
                0 <= b < st0.pending.len() implies !strictly_descends(
                st0.pending[b].path@,
                e.path@,
            ) by {
                let j = choose|j: int| 0 <= j < s.len() && st0.pending[b].path@ == s[j].path@;
                assert(entries[j].path@ == st0.pending[b].path@);
                if strictly_descends(entries[j].path@, entries[n].path@) {
                    assert(n < j);
                }
            }
            // And the new root lies below no earlier root: its entry was
            // not dominated.
            assert forall|b: int|
                0 <= b < st0.pending.len() implies !strictly_descends(
                e.path@,
                st0.pending[b].path@,
            ) by {
                assert(roots[roots0.len() + b] == st0.pending[b].path@);
                assert(!descends(e.path@, st0.pending[b].path@));
            }
            assert(st.pending == st0.pending.push(e));
            assert forall|a: int, b: int|
                0 <= a < st.file_items.len() && 0 <= b < st.pending.len()
                    implies !strictly_descends(st.file_items[a].path, st.pending[b].path@) by {
                if b < st0.pending.len() {
                    assert(st.pending[b] == st0.pending[b]);
                } else {
                    assert(st.pending[b] == e);
                }
            }
            assert forall|a: int, b: int|
                0 <= a < st.pending.len() && 0 <= b < st.pending.len() && a != b
                    implies !strictly_descends(st.pending[a].path@, st.pending[b].path@) by {
                if a < st0.pending.len() && b < st0.pending.len() {
                    assert(st.pending[a] == st0.pending[a]);
                    assert(st.pending[b] == st0.pending[b]);
                } else if a < st0.pending.len() {
                    assert(st.pending[a] == st0.pending[a]);
                    assert(st.pending[b] == e);
                } else {
                    assert(st.pending[a] == e);
                    assert(st.pending[b] == st0.pending[b]);
                }
            }
        } else if e.is_file && e.size > 0 && spec_classify_file_name(lower_of(e.name@)) is Some {
            // Emitting a file item: its entry was not dominated, so it lies
            // below no recorded root.
            assert forall|b: int|
                0 <= b < st0.pending.len() implies !strictly_descends(
                e.path@,
                st0.pending[b].path@,
            ) by {
                assert(roots[roots0.len() + b] == st0.pending[b].path@);
                assert(!descends(e.path@, st0.pending[b].path@));
            }
            assert(st.file_items == st0.file_items.push(st.file_items.last()));
            assert forall|a: int, b: int|
                0 <= a < st.file_items.len() && 0 <= b < st.pending.len()
                    implies !strictly_descends(st.file_items[a].path, st.pending[b].path@) by {
                if a < st0.file_items.len() {
                    assert(st.file_items[a] == st0.file_items[a]);
                } else {
                    assert(st.file_items[a].path == e.path@);
                }
            }
        } else {
        }
    }
}

/// The artifact items of the deferred batch, given each pending directory's
/// measured size.
pub open spec fn spec_artifact_views(pending: Seq<FsEntry>, sizes: Seq<u64>, now: u64) -> Seq<
    ItemView,
>
    decreases pending.len(),
{
    if pending.len() == 0 {
        Seq::empty()
    } else {
        spec_artifact_views(pending.drop_last(), sizes.drop_last(), now).push(
            spec_dev_artifact_view(
                pending.last().path@,
                pending.last().name@,
                if sizes.len() > 0 {
                    sizes.last()
                } else {
                    0u64
                },
                pending.last().modified,
                now,
            ),
        )
    }
}

/// Each artifact item takes the pending directory's own path and name and
/// the `DevArtifact` category, whatever the measured sizes.
pub proof fn lemma_artifact_views_fields(pending: Seq<FsEntry>, sizes: Seq<u64>, now: u64)
    ensures
        spec_artifact_views(pending, sizes, now).len() == pending.len(),
        forall|k: int|
            0 <= k < pending.len() ==> (#[trigger] spec_artifact_views(pending, sizes, now)[k]).path
                == pending[k].path@ && spec_artifact_views(pending, sizes, now)[k].category
                == FileCategory::DevArtifact,
    decreases pending.len(),
{
    if pending.len() > 0 {
        lemma_artifact_views_fields(pending.drop_last(), sizes.drop_last(), now);
    }
}

/// State of a whole project scan: the emitted item views, the absolute
/// root set (the roots present when the scan began plus everything it
/// recorded), and the visit tally.
pub ghost struct ProjectSweep {
    pub views: Seq<ItemView>,
    pub roots: Seq<Seq<char>>,
    pub visited: int,
}

/// One scan root's contribution: the walk's temp/log items, then its
/// deferred artifact items with the given measured sizes; its recorded
/// roots join the root set.
pub open spec fn spec_project_scan_step(
    state: ProjectSweep,
    walk: Seq<FsEntry>,
    sizes: Seq<u64>,
    now: u64,
) -> ProjectSweep {
    let st = spec_project_walk(walk, state.roots);
    ProjectSweep {
        views: state.views + st.file_items + spec_artifact_views(st.pending, sizes, now),
        roots: state.roots + roots_of(st.pending),
        visited: state.visited + st.visited,
    }
}

/// A whole project scan folded over its walks, threading the root set from
/// one scan root to the next.
pub open spec fn spec_project_scan(
    walks: Seq<Seq<FsEntry>>,
    sizess: Seq<Seq<u64>>,
    nows: Seq<u64>,
    roots0: Seq<Seq<char>>,
) -> ProjectSweep
    decreases walks.len(),
{
    if walks.len() == 0 {
        ProjectSweep { views: Seq::empty(), roots: roots0, visited: 0 }
    } else {
        spec_project_scan_step(
            spec_project_scan(walks.drop_last(), sizess.drop_last(), nows.drop_last(), roots0),
            walks.last(),
            if sizess.len() > 0 {
                sizess.last()
            } else {
                Seq::empty()
            },
            if nows.len() > 0 {
                nows.last()
            } else {
                0u64
            },
        )
    }
}

pub proof fn lemma_project_scan_visited_nonneg(
    walks: Seq<Seq<FsEntry>>,
    sizess: Seq<Seq<u64>>,
    nows: Seq<u64>,
    roots0: Seq<Seq<char>>,
)
    ensures
        spec_project_scan(walks, sizess, nows, roots0).visited >= 0,
    decreases walks.len(),
{
    if walks.len() > 0 {
        lemma_project_scan_visited_nonneg(
            walks.drop_last(),
            sizess.drop_last(),
            nows.drop_last(),
            roots0,
        );
        lemma_project_walk_visited_nonneg(
            walks.last(),
            spec_project_scan(walks.drop_last(), sizess.drop_last(), nows.drop_last(), roots0).roots,
        );
    }
}

/// What the project strategy may append, given that it began with roots
/// `roots0`, left roots `roots` and counted `visited` from a start of
/// `visited0`: the sweep over some parents-first walks.
pub open spec fn project_emission(
    c: Seq<ItemView>,
    roots0: Seq<Seq<char>>,
    roots: Seq<Seq<char>>,
    visited0: u64,
    visited: u64,
) -> bool {
    exists|walks: Seq<Seq<FsEntry>>, sizess: Seq<Seq<u64>>, nows: Seq<u64>|
        #![trigger spec_project_scan(walks, sizess, nows, roots0)]
        walks.len() == sizess.len() && walks.len() == nows.len() && (forall|w: int|
            0 <= w < walks.len() ==> parents_before_children(#[trigger] walks[w])) && c
            == spec_project_scan(walks, sizess, nows, roots0).views && roots == spec_project_scan(
            walks,
            sizess,
            nows,
            roots0,
        ).roots && visited == clip64(visited0 + spec_project_scan(walks, sizess, nows, roots0).visited)
}

impl Scanner {
    /// Processes one project walk (phase one): skips dominated entries,
    /// counts every other visited entry, records dev-artifact directories
    /// in the dominance set and defers them, and emits non-empty temp/log
    /// files at once.  The appended items, the recorded roots, the returned
    /// batch and the visit tally are exactly those of `spec_project_walk`.
    pub fn process_project_entries(&mut self, entries: &Vec<FsEntry>) -> (pending: Vec<FsEntry>)
        requires
            old(self).wf(),
        ensures
            final(self).wf(),
            ({
                let st = spec_project_walk(entries@, path_views(old(self).dominance.roots@));
                &&& item_views(final(self).store.items@) == item_views(old(self).store.items@)
                    + st.file_items
                &&& pending@ == st.pending
                &&& path_views(final(self).dominance.roots@) == path_views(
                    old(self).dominance.roots@,
                ) + roots_of(st.pending)
                &&& final(self).files_visited == clip64(old(self).files_visited + st.visited)
            }),
            final(self).config == old(self).config,
            final(self).scanning == old(self).scanning,
            final(self).stop_requested == old(self).stop_requested,
            final(self).current == old(self).current,
            final(self).store.stats.duration_ms == old(self).store.stats.duration_ms,
    {
        let ghost roots0 = path_views(old(self).dominance.roots@);
        let mut pending: Vec<FsEntry> = Vec::new();
        let n = entries.len();
        let mut i: usize = 0;
        proof {
            assert(item_views(self.store.items@) =~= item_views(self.store.items@)
                + spec_project_walk(entries@.take(0), roots0).file_items);
            assert(path_views(self.dominance.roots@) =~= roots0 + roots_of(
                spec_project_walk(entries@.take(0), roots0).pending,
            ));
        }
        while i < n
            invariant
                0 <= i <= n,
                n == entries@.len(),
                self.wf(),
                roots0 == path_views(old(self).dominance.roots@),
                ({
                    let st = spec_project_walk(entries@.take(i as int), roots0);
                    &&& item_views(self.store.items@) == item_views(old(self).store.items@)
                        + st.file_items
                    &&& pending@ == st.pending
                    &&& path_views(self.dominance.roots@) == roots0 + roots_of(st.pending)
                    &&& self.files_visited == clip64(old(self).files_visited + st.visited)
                }),
                self.config == old(self).config,
                self.scanning == old(self).scanning,
                self.stop_requested == old(self).stop_requested,
                self.current == old(self).current,
                self.store.stats.duration_ms == old(self).store.stats.duration_ms,
            decreases n - i,
        {
            let ghost st_i = spec_project_walk(entries@.take(i as int), roots0);
            proof {
                assert(entries@.take(i + 1 as int).drop_last() =~= entries@.take(i as int));
                assert(entries@.take(i + 1 as int).last() == entries@[i as int]);
                lemma_project_walk_visited_nonneg(entries@.take(i as int), roots0);
            }
            let e = &entries[i];
            if !self.dominance.is_dominated(e.path.as_str()) {
                self.files_visited = self.files_visited.saturating_add(1);
                if e.is_dir && is_dev_artifact_name(e.name.as_str()) {
                    self.dominance.record(e.path.clone());
                    pending.push(e.duplicate());
                    proof {
                        assert(roots_of(st_i.pending.push(entries@[i as int])) =~= roots_of(
                            st_i.pending,
                        ).push(entries@[i as int].path@));
                        assert(path_views(self.dominance.roots@) =~= (roots0 + roots_of(
                            st_i.pending,
                        )).push(entries@[i as int].path@));
                        assert((roots0 + roots_of(st_i.pending)).push(entries@[i as int].path@)
                            =~= roots0 + roots_of(st_i.pending).push(entries@[i as int].path@));
                    }
                } else if e.is_file {
                    let lower = to_lower(e.name.as_str());
                    match classify_file_name(lower.as_str()) {
                        Some(category) => {
                            if e.size > 0 {
                                let item = file_item(
                                    e.path.clone(),
                                    e.name.clone(),
                                    e.size,
                                    category,
                                    e.modified,
                                );
                                proof {
                                    lemma_item_views_push(self.store.items@, item);
                                }
                                self.store.add_item(item);
                                proof {
                                    assert((item_views(old(self).store.items@)
                                        + st_i.file_items).push(item@) =~= item_views(
                                        old(self).store.items@,
                                    ) + st_i.file_items.push(item@));
                                }
                            }
                        },
                        None => {},
                    }
                }
            }
            i += 1;
        }
        proof {
            assert(entries@.take(n as int) =~= entries@);
        }
        pending
    }

    /// Processes the deferred dev-artifact batch (phase two): measures each
    /// pending directory and emits one artifact item for it, stale-boosted
    /// and capped.  The sizes come from fresh walks, so they are bound
    /// existentially; everything else is pinned by `spec_artifact_views`.
    pub fn process_pending_artifacts(&mut self, pending: &Vec<FsEntry>, now: u64)
        requires
            old(self).wf(),
        ensures
            final(self).wf(),
            exists|sizes: Seq<u64>|
                #![trigger spec_artifact_views(pending@, sizes, now)]
                sizes.len() == pending@.len() && item_views(final(self).store.items@) == item_views(
                    old(self).store.items@,
                ) + spec_artifact_views(pending@, sizes, now),
            final(self).config == old(self).config,
            final(self).dominance == old(self).dominance,
            final(self).scanning == old(self).scanning,
            final(self).stop_requested == old(self).stop_requested,
            final(self).files_visited == old(self).files_visited,
            final(self).current == old(self).current,
            final(self).store.stats.duration_ms == old(self).store.stats.duration_ms,
    {
        let n = pending.len();
        let mut i: usize = 0;
        let ghost mut sizes: Seq<u64> = Seq::empty();
        proof {
            assert(item_views(self.store.items@) =~= item_views(self.store.items@)
                + spec_artifact_views(pending@.take(0), sizes, now));
        }
        while i < n
            invariant
                0 <= i <= n,
                n == pending@.len(),
                self.wf(),
                sizes.len() == i,
                item_views(self.store.items@) == item_views(old(self).store.items@)
                    + spec_artifact_views(pending@.take(i as int), sizes, now),
                self.config == old(self).config,
                self.dominance == old(self).dominance,
                self.scanning == old(self).scanning,
                self.stop_requested == old(self).stop_requested,
                self.files_visited == old(self).files_visited,
                self.current == old(self).current,
                self.store.stats.duration_ms == old(self).store.stats.duration_ms,
            decreases n - i,
        {
            let p = &pending[i];
            let size = dir_size(p.path.as_str());
            let item = dev_artifact_item(p.path.clone(), p.name.clone(), size, p.modified, now);
            proof {
                lemma_item_views_push(self.store.items@, item);
            }
            self.store.add_item(item);
            proof {
                let sizes1 = sizes.push(size);
                assert(pending@.take(i + 1 as int).drop_last() =~= pending@.take(i as int));
                assert(pending@.take(i + 1 as int).last() == pending@[i as int]);
                assert(sizes1.drop_last() =~= sizes);
                assert((item_views(old(self).store.items@) + spec_artifact_views(
                    pending@.take(i as int),
                    sizes,
                    now,
                )).push(item@) =~= item_views(old(self).store.items@) + spec_artifact_views(
                    pending@.take(i as int),
                    sizes,
                    now,
                ).push(item@));
                sizes = sizes1;
            }
            i += 1;
        }
        proof {
            assert(pending@.take(n as int) =~= pending@);
        }
    }

    /// The project-directory traversal strategy: walks each configured scan
    /// root bounded by the configured depth, applying the dominance filter,
    /// then sizes the deferred artifact batch.  A set stop flag keeps it
    /// from beginning any new scan root.  The appended items, the recorded
    /// roots and the visit tally are exactly those of `spec_project_scan`
    /// over the parents-first walks that were made.
    pub fn scan_project_directories(&mut self)
        requires
            old(self).wf(),
        ensures
            final(self).wf(),
            item_views(old(self).store.items@).is_prefix_of(item_views(final(self).store.items@)),
            old(self).stop_requested ==> final(self).store.items@ == old(self).store.items@
                && final(self).dominance == old(self).dominance && final(self).files_visited == old(
                self,
            ).files_visited,
            exists|c: Seq<ItemView>|
                #![trigger project_emission(c, path_views(old(self).dominance.roots@), path_views(final(self).dominance.roots@), old(self).files_visited, final(self).files_visited)]
                item_views(final(self).store.items@) == item_views(old(self).store.items@) + c
                    && project_emission(
                    c,
                    path_views(old(self).dominance.roots@),
                    path_views(final(self).dominance.roots@),
                    old(self).files_visited,
                    final(self).files_visited,
                ),
            final(self).config == old(self).config,
            final(self).scanning == old(self).scanning,
            final(self).stop_requested == old(self).stop_requested,
            final(self).store.stats.duration_ms == old(self).store.stats.duration_ms,
    {
        let ghost roots0 = path_views(old(self).dominance.roots@);
        let ghost mut walks: Seq<Seq<FsEntry>> = Seq::empty();
        let ghost mut sizess: Seq<Seq<u64>> = Seq::empty();
        let ghost mut nows: Seq<u64> = Seq::empty();
        proof {
            lemma_prefix_refl(item_views(self.store.items@));
            assert(item_views(self.store.items@) =~= item_views(self.store.items@)
                + spec_project_scan(walks, sizess, nows, roots0).views);
        }
        if self.stop_requested {
            proof {
                let sweep = spec_project_scan(walks, sizess, nows, roots0);
                assert(project_emission(
                    sweep.views,
                    roots0,
                    path_views(self.dominance.roots@),
                    self.files_visited,
                    self.files_visited,
                ));
            }
            return;
        }
        let n = self.config.scan_paths.len();
        let mut i: usize = 0;
        while i < n
            invariant
                0 <= i <= n,
                self.wf(),
                n == self.config.scan_paths@.len(),
                !self.stop_requested,
                roots0 == path_views(old(self).dominance.roots@),
                walks.len() == sizess.len(),
                walks.len() == nows.len(),
                forall|w: int| 0 <= w < walks.len() ==> parents_before_children(#[trigger] walks[w]),
                ({
                    let sweep = spec_project_scan(walks, sizess, nows, roots0);
                    &&& item_views(self.store.items@) == item_views(old(self).store.items@)
                        + sweep.views
                    &&& path_views(self.dominance.roots@) == sweep.roots
                    &&& self.files_visited == clip64(old(self).files_visited + sweep.visited)
                }),
                item_views(old(self).store.items@).is_prefix_of(item_views(self.store.items@)),
                self.config == old(self).config,
                self.scanning == old(self).scanning,
                self.stop_requested == old(self).stop_requested,
                self.store.stats.duration_ms == old(self).store.stats.duration_ms,
            decreases n - i,
        {
            let ghost sweep_i = spec_project_scan(walks, sizess, nows, roots0);
            let base = self.config.scan_paths[i].clone();
            let entries = walk_dir(
                base.as_str(),
                self.config.max_depth as usize,
                self.config.follow_symlinks,
            );
            if entries.len() == 0 {
                proof {
                    let walks1 = walks.push(entries@);
                    let sizess1 = sizess.push(Seq::<u64>::empty());
                    let nows1 = nows.push(0u64);
                    assert(walks1.drop_last() =~= walks);
                    assert(sizess1.drop_last() =~= sizess);
                    assert(nows1.drop_last() =~= nows);
                    let st = spec_project_walk(entries@, sweep_i.roots);
                    assert(st.file_items =~= Seq::<ItemView>::empty());
                    assert(st.pending =~= Seq::<FsEntry>::empty());
                    assert(spec_artifact_views(st.pending, Seq::<u64>::empty(), 0u64)
                        =~= Seq::<ItemView>::empty());
                    assert(roots_of(st.pending) =~= Seq::<Seq<char>>::empty());
                    let sweep1 = spec_project_scan(walks1, sizess1, nows1, roots0);
                    assert(sweep1.views =~= sweep_i.views);
                    assert(sweep1.roots =~= sweep_i.roots);
                    assert(parents_before_children(entries@));
                    assert forall|w: int|
                        0 <= w < walks1.len() implies parents_before_children(
                        #[trigger] walks1[w],
                    ) by {
                        if w < walks.len() {
                            assert(walks1[w] == walks[w]);
                        } else {
                            assert(walks1[w] == entries@);
                        }
                    }
                    walks = walks1;
                    sizess = sizess1;
                    nows = nows1;
                }
                i += 1;
                continue;
            }
            self.update_current_path(base.as_str());
            let ghost before = item_views(self.store.items@);
            let pending = self.process_project_entries(&entries);
            proof {
                lemma_prefix_concat(
                    before,
                    spec_project_walk(entries@, sweep_i.roots).file_items,
                );
                lemma_prefix_transitive(
                    item_views(old(self).store.items@),
                    before,
                    item_views(self.store.items@),
                );
            }
            let now = now_secs();
            let ghost mid = item_views(self.store.items@);
            self.process_pending_artifacts(&pending, now);
            proof {
                let st = spec_project_walk(entries@, sweep_i.roots);
                let zs = choose|sizes: Seq<u64>|
                    #![trigger spec_artifact_views(pending@, sizes, now)]
                    sizes.len() == pending@.len() && item_views(self.store.items@) == mid
                        + spec_artifact_views(pending@, sizes, now);
                lemma_prefix_concat(mid, spec_artifact_views(pending@, zs, now));
                lemma_prefix_transitive(
                    item_views(old(self).store.items@),
                    mid,
                    item_views(self.store.items@),
                );
                let walks1 = walks.push(entries@);
                let sizess1 = sizess.push(zs);
                let nows1 = nows.push(now);
                assert(walks1.drop_last() =~= walks);
                assert(sizess1.drop_last() =~= sizess);
                assert(nows1.drop_last() =~= nows);
                let sweep1 = spec_project_scan(walks1, sizess1, nows1, roots0);
                assert(sweep1 == spec_project_scan_step(sweep_i, entries@, zs, now));
                assert(item_views(self.store.items@) =~= item_views(old(self).store.items@) + (
                sweep_i.views + st.file_items + spec_artifact_views(st.pending, zs, now)));
                assert(path_views(self.dominance.roots@) == sweep_i.roots + roots_of(st.pending));
                lemma_project_scan_visited_nonneg(walks, sizess, nows, roots0);
                lemma_project_walk_visited_nonneg(entries@, sweep_i.roots);
                assert forall|w: int|
                    0 <= w < walks1.len() implies parents_before_children(#[trigger] walks1[w]) by {
                    if w < walks.len() {
                        assert(walks1[w] == walks[w]);
                    } else {
                        assert(walks1[w] == entries@);
                    }
                }
                walks = walks1;
                sizess = sizess1;
                nows = nows1;
            }
            i += 1;
        }
        proof {
            let sweep = spec_project_scan(walks, sizess, nows, roots0);
            assert(project_emission(
                sweep.views,
                roots0,
                path_views(self.dominance.roots@),
                old(self).files_visited,
                self.files_visited,
            ));
        }
    }
}

/// What the downloads strategy may append: the decisions over some
/// depth-1 walk of the downloads directory at some clock reading.
pub open spec fn downloads_emission(d: Seq<ItemView>) -> bool {
    exists|entries: Seq<FsEntry>, now: u64|
        #![trigger spec_downloads_views(entries, now)]
        d == spec_downloads_views(entries, now)
}

/// What one full scan may hold, starting from an empty store, no recorded
/// roots and a zeroed visit counter: the known-cache, system-cache and
/// downloads emissions, in that order, followed by the project sweep —
/// which alone records roots and counts visits.  Everything before the
/// project part is emitted before any root of this scan is recorded.
pub open spec fn scan_emission(views: Seq<ItemView>, roots: Seq<Seq<char>>, visited: u64) -> bool {
    exists|a: Seq<ItemView>, b: Seq<ItemView>, d: Seq<ItemView>, c: Seq<ItemView>|
        #![trigger known_cache_emission(a), system_cache_emission(b), downloads_emission(d), project_emission(c, Seq::<Seq<char>>::empty(), roots, 0u64, visited)]
        views == a + b + d + c && known_cache_emission(a) && system_cache_emission(b)
            && downloads_emission(d) && project_emission(
            c,
            Seq::<Seq<char>>::empty(),
            roots,
            0u64,
            visited,
        )
}

/// Dominance across a whole project scan, step by step: the items step `w`
/// contributes — its temp/log file items and the artifact items of its
/// deferred batch — lie strictly below no root present by the end of step
/// `w`, neither a root this scan had already recorded nor one step `w`
/// itself records.  Together with the engine order (the cache and
/// downloads strategies finish before the project strategy records
/// anything), every item of a scan avoids strict descent below every root
/// recorded up to the item's own emission.
pub proof fn lemma_project_scan_dominance(
    walks: Seq<Seq<FsEntry>>,
    sizess: Seq<Seq<u64>>,
    nows: Seq<u64>,
    roots0: Seq<Seq<char>>,
    w: int,
)
    requires
        0 <= w < walks.len(),
        forall|k: int| 0 <= k < walks.len() ==> parents_before_children(#[trigger] walks[k]),
    ensures
        ({
            let before = spec_project_scan(walks.take(w), sizess.take(w), nows.take(w), roots0);
            let st = spec_project_walk(walks[w], before.roots);
            let step_views = st.file_items + spec_artifact_views(
                st.pending,
                if w < sizess.len() {
                    sizess[w]
                } else {
                    Seq::empty()
                },
                if w < nows.len() {
                    nows[w]
                } else {
                    0u64
                },
            );
            let roots_after = before.roots + roots_of(st.pending);
            forall|a: int, r: int|
                0 <= a < step_views.len() && 0 <= r < roots_after.len() ==> !(
                #[trigger] strictly_descends(step_views[a].path, roots_after[r]))
        }),
{
    let before = spec_project_scan(walks.take(w), sizess.take(w), nows.take(w), roots0);
    let st = spec_project_walk(walks[w], before.roots);
    let sizes = if w < sizess.len() {
        sizess[w]
    } else {
        Seq::empty()
    };
    let now = if w < nows.len() {
        nows[w]
    } else {
        0u64
    };
    let art = spec_artifact_views(st.pending, sizes, now);
    let step_views = st.file_items + art;
    let roots_after = before.roots + roots_of(st.pending);
    assert(parents_before_children(walks[w]));
    lemma_project_walk_origins(walks[w], before.roots);
    lemma_project_walk_dominance(walks[w], before.roots);
    lemma_artifact_views_fields(st.pending, sizes, now);
    assert forall|a: int, r: int|
        0 <= a < step_views.len() && 0 <= r < roots_after.len() implies !strictly_descends(
        step_views[a].path,
        roots_after[r],
    ) by {
        let p = step_views[a].path;
        if a < st.file_items.len() {
            assert(step_views[a] == st.file_items[a]);
            if r < before.roots.len() {
                assert(roots_after[r] == before.roots[r]);
                assert(!descends(st.file_items[a].path, before.roots[r]));
            } else {
                let b = r - before.roots.len();
                assert(roots_after[r] == roots_of(st.pending)[b]);
                assert(roots_of(st.pending)[b] == st.pending[b].path@);
                assert(!strictly_descends(st.file_items[a].path, st.pending[b].path@));
            }
        } else {
            let k = a - st.file_items.len();
            assert(step_views[a] == art[k]);
            assert(art[k].path == st.pending[k].path@);
            if r < before.roots.len() {
                assert(roots_after[r] == before.roots[r]);
                assert(!descends(st.pending[k].path@, before.roots[r]));
            } else {
                let b = r - before.roots.len();
                assert(roots_after[r] == roots_of(st.pending)[b]);
                assert(roots_of(st.pending)[b] == st.pending[b].path@);
                // For k == b the paths are equal, and a path never strictly
                // descends itself; distinct pairs are covered by the walk's
                // dominance property.
                assert(!strictly_descends(st.pending[k].path@, st.pending[b].path@));
            }
        }
    }
}

impl Scanner {
    /// Runs a full scan: clears prior results, resets cancellation and
    /// progress state, runs the known-cache, system-cache, downloads and
    /// project strategies in turn, records the elapsed wall-clock time,
    /// and returns the full item list.  The result is exactly the four
    /// strategies' emissions over the walks that were made, starting from
    /// an empty store — nothing of an earlier scan survives unless
    /// rediscovered — and the visit counter and recorded roots are those
    /// of the project sweep alone.  Not reentrant: the `scanning` flag is
    /// advisory, and callers should check `is_scanning` before issuing a
    /// new scan.
    pub fn scan(&mut self) -> (r: Vec<ScannedItem>)
        requires
            old(self).wf(),
        ensures
            final(self).wf(),
            r@ == final(self).store.items@,
            all_items_valid(r@),
            stats_match(r@, final(self).store.stats),
            scan_emission(
                item_views(final(self).store.items@),
                path_views(final(self).dominance.roots@),
                final(self).files_visited,
            ),
            final(self).scanning == false,
            final(self).stop_requested == false,
            final(self).config == old(self).config,
    {
        self.scanning = true;
        self.stop_requested = false;
        self.files_visited = 0;
        self.store.clear();
        self.dominance.clear();
        proof {
            assert(item_views(self.store.items@) =~= Seq::<ItemView>::empty());
            assert(path_views(self.dominance.roots@) =~= Seq::<Seq<char>>::empty());
        }
        let start = now_millis();
        let ghost items0 = self.store.items@;
        self.scan_known_cache_paths();
        let ghost a = choose|a: Seq<ItemView>|
            #![trigger known_cache_emission(a)]
            item_views(self.store.items@) == item_views(items0) + a && known_cache_emission(a);
        let ghost items1 = self.store.items@;
        self.scan_system_caches();
        let ghost b = choose|b: Seq<ItemView>|
            #![trigger system_cache_emission(b)]
            item_views(self.store.items@) == item_views(items1) + b && system_cache_emission(b);
        let ghost items2 = self.store.items@;
        self.scan_downloads();
        let ghost dpair = choose|entries: Seq<FsEntry>, now: u64|
            #![trigger spec_downloads_views(entries, now)]
            item_views(self.store.items@) == item_views(items2) + spec_downloads_views(
                entries,
                now,
            );
        let ghost dv = spec_downloads_views(dpair.0, dpair.1);
        let ghost items3 = self.store.items@;
        let ghost roots3 = self.dominance.roots@;
        let ghost visited3 = self.files_visited;
        self.scan_project_directories();
        proof {
            let c = choose|c: Seq<ItemView>|
                #![trigger project_emission(c, path_views(roots3), path_views(self.dominance.roots@), visited3, self.files_visited)]
                item_views(self.store.items@) == item_views(items3) + c && project_emission(
                    c,
                    path_views(roots3),
                    path_views(self.dominance.roots@),
                    visited3,
                    self.files_visited,
                );
            assert(downloads_emission(dv));
            assert(path_views(roots3) =~= Seq::<Seq<char>>::empty());
            assert(visited3 == 0);
            assert(project_emission(
                c,
                Seq::<Seq<char>>::empty(),
                path_views(self.dominance.roots@),
                0u64,
                self.files_visited,
            ));
            assert(item_views(items0) =~= Seq::<ItemView>::empty());
            assert(item_views(self.store.items@) =~= a + b + dv + c);
            assert(scan_emission(
                item_views(self.store.items@),
                path_views(self.dominance.roots@),
                self.files_visited,
            ));
        }
        let end = now_millis();
        self.store.set_duration(end.saturating_sub(start));
        self.scanning = false;
        self.store.get_items()
    }
}

/// Confidence bounds law: every item the store holds — hence everything a
/// scan returns — carries a confidence within `0 ..= 100`, bounded by the
/// dev-artifact cap of 98 and the old-download cap of 95 where the
/// staleness bonus applies.
pub proof fn lemma_confidence_bounds(s: &Scanner, i: int)
    requires
        s.wf(),
        0 <= i < s.store.items@.len(),
    ensures
        s.store.items@[i].confidence <= 100,
        s.store.items@[i].category == FileCategory::DevArtifact ==> s.store.items@[i].confidence
            <= DEV_ARTIFACT_CONFIDENCE_CAP,
        s.store.items@[i].category == FileCategory::OldDownload ==> s.store.items@[i].confidence
            <= OLD_DOWNLOAD_CONFIDENCE_CAP,
{
    assert(item_valid(s.store.items@[i]));
}

/// Idempotence law: what the strategies compute is a function of the walk
/// snapshots, the prior dominance roots and the clock readings alone, so
/// two scans over an unchanged filesystem and clock yield the same items.
pub proof fn lemma_scan_deterministic(
    e1: Seq<FsEntry>,
    e2: Seq<FsEntry>,
    roots1: Seq<Seq<char>>,
    roots2: Seq<Seq<char>>,
    sizes: Seq<u64>,
    now1: u64,
    now2: u64,
    category: FileCategory,
)
    requires
        e1 == e2,
        roots1 == roots2,
        now1 == now2,
    ensures
        spec_cache_root_view(e1, category) == spec_cache_root_view(e2, category),
        spec_downloads_views(e1, now1) == spec_downloads_views(e2, now2),
        spec_project_walk(e1, roots1) == spec_project_walk(e2, roots2),
        spec_artifact_views(e1, sizes, now1) == spec_artifact_views(e2, sizes, now2),
{
}

/// The (path, category, size) key of an item.
pub open spec fn item_key(v: ItemView) -> (Seq<char>, FileCategory, u64) {
    (v.path, v.category, v.size)
}

pub open spec fn item_keys(s: Seq<ItemView>) -> Seq<(Seq<char>, FileCategory, u64)> {
    s.map_values(|v: ItemView| item_key(v))
}

/// Clock drift between two otherwise identical scans changes only the
/// timestamp-derived fields of the deferred artifact items (staleness flag
/// and boosted confidence), never their (path, category, size) keys.
pub proof fn lemma_artifact_keys_ignore_clock(
    pending: Seq<FsEntry>,
    sizes: Seq<u64>,
    now1: u64,
    now2: u64,
)
    ensures
        item_keys(spec_artifact_views(pending, sizes, now1)) == item_keys(
            spec_artifact_views(pending, sizes, now2),
        ),
    decreases pending.len(),
{
    let a1 = spec_artifact_views(pending, sizes, now1);
    let a2 = spec_artifact_views(pending, sizes, now2);
    if pending.len() == 0 {
        assert(item_keys(a1) =~= item_keys(a2));
    } else {
        lemma_artifact_keys_ignore_clock(pending.drop_last(), sizes.drop_last(), now1, now2);
        let r1 = spec_artifact_views(pending.drop_last(), sizes.drop_last(), now1);
        let r2 = spec_artifact_views(pending.drop_last(), sizes.drop_last(), now2);
        assert(item_keys(a1) =~= item_keys(r1).push(item_key(a1.last())));
        assert(item_keys(a2) =~= item_keys(r2).push(item_key(a2.last())));
        assert(item_key(a1.last()) == item_key(a2.last()));
    }
}

/// An emitted item's confidence obeys the documented equations: it lies
/// within `0 ..= 100`; a dev-artifact or old-download item carries exactly
/// its base weight plus the staleness bonus, clamped to its cap; every
/// other category carries its base weight with no staleness flag.
pub open spec fn view_confidence_ok(v: ItemView) -> bool {
    &&& v.confidence <= 100
    &&& v.category == FileCategory::DevArtifact ==> v.confidence == spec_capped_confidence(
        spec_base_confidence(FileCategory::DevArtifact),
        v.is_stale,
        DEV_ARTIFACT_CONFIDENCE_CAP,
    )
    &&& v.category == FileCategory::OldDownload ==> v.confidence == spec_capped_confidence(
        spec_base_confidence(FileCategory::OldDownload),
        v.is_stale,
        OLD_DOWNLOAD_CONFIDENCE_CAP,
    )
    &&& v.category != FileCategory::DevArtifact && v.category != FileCategory::OldDownload
        ==> v.confidence == spec_base_confidence(v.category) && !v.is_stale
}

pub proof fn lemma_cache_group_views_confidence(walks: Seq<Seq<FsEntry>>, category: FileCategory)
    ensures
        forall|k: int|
            0 <= k < spec_cache_group_views(walks, category).len() ==> view_confidence_ok(
                #[trigger] spec_cache_group_views(walks, category)[k],
            ),
    decreases walks.len(),
{
    if walks.len() > 0 {
        lemma_cache_group_views_confidence(walks.drop_last(), category);
        let rest = spec_cache_group_views(walks.drop_last(), category);
        let cur = spec_cache_group_views(walks, category);
        assert forall|k: int| 0 <= k < cur.len() implies view_confidence_ok(cur[k]) by {
            if k < rest.len() {
                assert(cur[k] == rest[k]);
            }
        }
    }
}

pub proof fn lemma_system_root_views_confidence(children: Seq<FsEntry>, sizes: Seq<u64>)
    ensures
        forall|k: int|
            0 <= k < spec_system_root_views(children, sizes).len() ==> view_confidence_ok(
                #[trigger] spec_system_root_views(children, sizes)[k],
            ),
    decreases children.len(),
{
    if children.len() > 0 {
        lemma_system_root_views_confidence(children.drop_last(), sizes.drop_last());
        let rest = spec_system_root_views(children.drop_last(), sizes.drop_last());
        let cur = spec_system_root_views(children, sizes);
        assert forall|k: int| 0 <= k < cur.len() implies view_confidence_ok(cur[k]) by {
            if k < rest.len() {
                assert(cur[k] == rest[k]);
            }
        }
    }
}

pub proof fn lemma_system_scan_views_confidence(walks: Seq<Seq<FsEntry>>, sizess: Seq<Seq<u64>>)
    ensures
        forall|k: int|
            0 <= k < spec_system_scan_views(walks, sizess).len() ==> view_confidence_ok(
                #[trigger] spec_system_scan_views(walks, sizess)[k],
            ),
    decreases walks.len(),
{
    if walks.len() > 0 {
        lemma_system_scan_views_confidence(walks.drop_last(), sizess.drop_last());
        let rest = spec_system_scan_views(walks.drop_last(), sizess.drop_last());
        let last = spec_system_root_views(
            walks.last(),
            if sizess.len() > 0 {
                sizess.last()
            } else {
                Seq::empty()
            },
        );
        lemma_system_root_views_confidence(
            walks.last(),
            if sizess.len() > 0 {
                sizess.last()
            } else {
                Seq::empty()
            },
        );
        let cur = spec_system_scan_views(walks, sizess);
        assert forall|k: int| 0 <= k < cur.len() implies view_confidence_ok(cur[k]) by {
            if k < rest.len() {
                assert(cur[k] == rest[k]);
            } else {
                assert(cur[k] == last[k - rest.len()]);
            }
        }
    }
}

pub proof fn lemma_downloads_views_confidence(entries: Seq<FsEntry>, now: u64)
    ensures
        forall|k: int|
            0 <= k < spec_downloads_views(entries, now).len() ==> view_confidence_ok(
                #[trigger] spec_downloads_views(entries, now)[k],
            ),
    decreases entries.len(),
{
    if entries.len() > 0 {
        lemma_downloads_views_confidence(entries.drop_last(), now);
        let rest = spec_downloads_views(entries.drop_last(), now);
        let cur = spec_downloads_views(entries, now);
        assert forall|k: int| 0 <= k < cur.len() implies view_confidence_ok(cur[k]) by {
            if k < rest.len() {
                assert(cur[k] == rest[k]);
            }
        }
    }
}

pub proof fn lemma_artifact_views_confidence(pending: Seq<FsEntry>, sizes: Seq<u64>, now: u64)
    ensures
        forall|k: int|
            0 <= k < spec_artifact_views(pending, sizes, now).len() ==> view_confidence_ok(
                #[trigger] spec_artifact_views(pending, sizes, now)[k],
            ),
    decreases pending.len(),
{
    if pending.len() > 0 {
        lemma_artifact_views_confidence(pending.drop_last(), sizes.drop_last(), now);
        let rest = spec_artifact_views(pending.drop_last(), sizes.drop_last(), now);
        let cur = spec_artifact_views(pending, sizes, now);
        assert forall|k: int| 0 <= k < cur.len() implies view_confidence_ok(cur[k]) by {
            if k < rest.len() {
                assert(cur[k] == rest[k]);
            }
        }
    }
}

pub proof fn lemma_project_walk_confidence(entries: Seq<FsEntry>, roots0: Seq<Seq<char>>)
    ensures
        forall|k: int|
            0 <= k < spec_project_walk(entries, roots0).file_items.len() ==> view_confidence_ok(
                #[trigger] spec_project_walk(entries, roots0).file_items[k],
            ),
    decreases entries.len(),
{
    if entries.len() > 0 {
        lemma_project_walk_confidence(entries.drop_last(), roots0);
        let rest = spec_project_walk(entries.drop_last(), roots0).file_items;
        let cur = spec_project_walk(entries, roots0).file_items;
        assert forall|k: int| 0 <= k < cur.len() implies view_confidence_ok(cur[k]) by {
            if k < rest.len() {
                assert(cur[k] == rest[k]);
            }
        }
    }
}

pub proof fn lemma_project_scan_confidence(
    walks: Seq<Seq<FsEntry>>,
    sizess: Seq<Seq<u64>>,
    nows: Seq<u64>,
    roots0: Seq<Seq<char>>,
)
    ensures
        forall|k: int|
            0 <= k < spec_project_scan(walks, sizess, nows, roots0).views.len()
                ==> view_confidence_ok(
                #[trigger] spec_project_scan(walks, sizess, nows, roots0).views[k],
            ),
    decreases walks.len(),
{
    if walks.len() > 0 {
        lemma_project_scan_confidence(walks.drop_last(), sizess.drop_last(), nows.drop_last(), roots0);
        let before = spec_project_scan(walks.drop_last(), sizess.drop_last(), nows.drop_last(), roots0);
        let st = spec_project_walk(walks.last(), before.roots);
        let sizes = if sizess.len() > 0 {
            sizess.last()
        } else {
            Seq::empty()
        };
        let now = if nows.len() > 0 {
            nows.last()
        } else {
            0u64
        };
        lemma_project_walk_confidence(walks.last(), before.roots);
        lemma_artifact_views_confidence(st.pending, sizes, now);
        let art = spec_artifact_views(st.pending, sizes, now);
        let cur = spec_project_scan(walks, sizess, nows, roots0).views;
        assert forall|k: int| 0 <= k < cur.len() implies view_confidence_ok(cur[k]) by {
            if k < before.views.len() {
                assert(cur[k] == before.views[k]);
            } else if k < before.views.len() + st.file_items.len() {
                assert(cur[k] == st.file_items[k - before.views.len()]);
            } else {
                assert(cur[k] == art[k - before.views.len() - st.file_items.len()]);
            }
        }
    }
}

/// Confidence law over a whole scan: every item a scan can emit lies
/// within the bounds, and a stale dev-artifact or old-download item
/// carries exactly its base weight plus the bonus, clamped to its cap.
pub proof fn lemma_scan_emission_confidence(
    views: Seq<ItemView>,
    roots: Seq<Seq<char>>,
    visited: u64,
    k: int,
)
    requires
        scan_emission(views, roots, visited),
        0 <= k < views.len(),
    ensures
        view_confidence_ok(views[k]),
{
    let (a, b, d, c) = choose|a: Seq<ItemView>, b: Seq<ItemView>, d: Seq<ItemView>, c: Seq<ItemView>|
        #![trigger known_cache_emission(a), system_cache_emission(b), downloads_emission(d), project_emission(c, Seq::<Seq<char>>::empty(), roots, 0u64, visited)]
        views == a + b + d + c && known_cache_emission(a) && system_cache_emission(b)
            && downloads_emission(d) && project_emission(
            c,
            Seq::<Seq<char>>::empty(),
            roots,
            0u64,
            visited,
        );
    if k < a.len() {
        let (wp, wi, wb) = choose|
            wp: Seq<Seq<FsEntry>>,
            wi: Seq<Seq<FsEntry>>,
            wb: Seq<Seq<FsEntry>>,
        |
            #![trigger spec_cache_group_views(wp, FileCategory::PackageCache), spec_cache_group_views(wi, FileCategory::IdeCache), spec_cache_group_views(wb, FileCategory::BrowserCache)]
            a == spec_cache_group_views(wp, FileCategory::PackageCache) + spec_cache_group_views(
                wi,
                FileCategory::IdeCache,
            ) + spec_cache_group_views(wb, FileCategory::BrowserCache);
        lemma_cache_group_views_confidence(wp, FileCategory::PackageCache);
        lemma_cache_group_views_confidence(wi, FileCategory::IdeCache);
        lemma_cache_group_views_confidence(wb, FileCategory::BrowserCache);
        let g1 = spec_cache_group_views(wp, FileCategory::PackageCache);
        let g2 = spec_cache_group_views(wi, FileCategory::IdeCache);
        let g3 = spec_cache_group_views(wb, FileCategory::BrowserCache);
        assert(views[k] == a[k]);
        if k < g1.len() {
            assert(a[k] == g1[k]);
        } else if k < g1.len() + g2.len() {
            assert(a[k] == g2[k - g1.len()]);
        } else {
            assert(a[k] == g3[k - g1.len() - g2.len()]);
        }
    } else if k < a.len() + b.len() {
        let (walks, sizess) = choose|walks: Seq<Seq<FsEntry>>, sizess: Seq<Seq<u64>>|
            #![trigger spec_system_scan_views(walks, sizess)]
            b == spec_system_scan_views(walks, sizess);
        lemma_system_scan_views_confidence(walks, sizess);
        assert(views[k] == b[k - a.len()]);
    } else if k < a.len() + b.len() + d.len() {
        let (entries, now) = choose|entries: Seq<FsEntry>, now: u64|
            #![trigger spec_downloads_views(entries, now)]
            d == spec_downloads_views(entries, now);
        lemma_downloads_views_confidence(entries, now);
        assert(views[k] == d[k - a.len() - b.len()]);
    } else {
        let (walks, sizess, nows) = choose|
            walks: Seq<Seq<FsEntry>>,
            sizess: Seq<Seq<u64>>,
            nows: Seq<u64>,
        |
            #![trigger spec_project_scan(walks, sizess, nows, Seq::<Seq<char>>::empty())]
            walks.len() == sizess.len() && walks.len() == nows.len() && (forall|w: int|
                0 <= w < walks.len() ==> parents_before_children(#[trigger] walks[w])) && c
                == spec_project_scan(walks, sizess, nows, Seq::<Seq<char>>::empty()).views && roots
                == spec_project_scan(walks, sizess, nows, Seq::<Seq<char>>::empty()).roots
                && visited == clip64(
                0u64 + spec_project_scan(walks, sizess, nows, Seq::<Seq<char>>::empty()).visited,
            );
        lemma_project_scan_confidence(walks, sizess, nows, Seq::<Seq<char>>::empty());
        assert(views[k] == c[k - a.len() - b.len() - d.len()]);
    }
}

} // verus!
