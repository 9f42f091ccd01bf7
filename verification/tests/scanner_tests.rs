use sweeper::categories::FileCategory;
use sweeper::config::Config;
use sweeper::platform::FsEntry;
use sweeper::scanner::Scanner;
use sweeper::scanner::cache_root_item;
use sweeper::scanner::sum_file_sizes;
use sweeper::scanner::system_cache_child_item;

const DAY: u64 = 86400;

fn entry(path: &str, depth: usize, is_dir: bool, size: u64, modified: u64) -> FsEntry {
    FsEntry {
        path: path.to_string(),
        name: path.rsplit('/').next().unwrap().to_string(),
        depth,
        is_dir,
        is_file: !is_dir,
        size,
        modified,
    }
}

fn bare_config(paths: Vec<String>) -> Config {
    Config {
        scan_paths: paths,
        exclude_patterns: Vec::new(),
        enabled_categories: Vec::new(),
        large_file_threshold: 100 * 1024 * 1024,
        stale_days_threshold: 90,
        old_download_days: 30,
        show_hidden: true,
        follow_symlinks: false,
        max_depth: 20,
        use_trash: true,
        dry_run: false,
    }
}

#[test]
fn sum_counts_only_files() {
    let entries = vec![
        entry("/r", 0, true, 999, 0),
        entry("/r/a", 1, false, 10, 0),
        entry("/r/d", 1, true, 777, 0),
        entry("/r/d/b", 2, false, 32, 0),
    ];
    assert_eq!(sum_file_sizes(&entries), 42);
    assert_eq!(sum_file_sizes(&Vec::new()), 0);
}

#[test]
fn cache_root_reported_whole_when_nonempty() {
    let entries = vec![
        entry("/home/u/.npm", 0, true, 0, 500),
        entry("/home/u/.npm/f", 1, false, 30, 0),
        entry("/home/u/.npm/g", 1, false, 12, 0),
    ];
    let item = cache_root_item(&entries, FileCategory::PackageCache).unwrap();
    assert_eq!(item.path, "/home/u/.npm");
    assert_eq!(item.name, ".npm");
    assert_eq!(item.size, 42);
    assert_eq!(item.category, FileCategory::PackageCache);
    assert_eq!(item.confidence, 88);
    assert!(item.is_dir);
    assert_eq!(item.modified, 500);
}

#[test]
fn cache_root_skipped_when_missing_or_empty() {
    // Missing root: the walk reported nothing.
    assert!(cache_root_item(&Vec::new(), FileCategory::IdeCache).is_none());
    // Root is a file, not a directory.
    let file_root = vec![entry("/home/u/.npm", 0, false, 10, 0)];
    assert!(cache_root_item(&file_root, FileCategory::IdeCache).is_none());
    // Directory with no content.
    let empty_dir = vec![entry("/home/u/.npm", 0, true, 0, 0)];
    assert!(cache_root_item(&empty_dir, FileCategory::IdeCache).is_none());
}

#[test]
fn system_cache_child_respects_floor() {
    let child = entry("/tmp/build", 1, true, 0, 9);
    assert!(system_cache_child_item(&child, 1024 * 1024).is_none());
    let item = system_cache_child_item(&child, 1024 * 1024 + 1).unwrap();
    assert_eq!(item.category, FileCategory::SystemCache);
    assert_eq!(item.size, 1024 * 1024 + 1);
    assert_eq!(item.confidence, 92);
}

#[test]
fn downloads_strategy_includes_only_old_depth_one_files() {
    let now: u64 = 40_000_000;
    let entries = vec![
        entry("/d", 0, true, 0, 0),
        // 30 days and 1 second old: included.
        entry("/d/old.zip", 1, false, 100, now - (30 * DAY + 1)),
        // 29 days, 23 hours old: excluded.
        entry("/d/new.zip", 1, false, 100, now - (30 * DAY - 3600)),
        // Old, but a directory: excluded.
        entry("/d/olddir", 1, true, 100, now - 40 * DAY),
        // Very old: included and stale-boosted.
        entry("/d/ancient.iso", 1, false, 9, now - 120 * DAY),
    ];
    let mut s = Scanner::new(bare_config(Vec::new()));
    s.process_downloads_entries(&entries, now);
    let items = s.get_items();
    assert_eq!(items.len(), 2);
    assert_eq!(items[0].path, "/d/old.zip");
    assert_eq!(items[0].category, FileCategory::OldDownload);
    assert_eq!(items[0].confidence, 75);
    assert!(!items[0].is_stale);
    assert_eq!(items[1].path, "/d/ancient.iso");
    assert_eq!(items[1].confidence, 85);
    assert!(items[1].is_stale);
    let stats = s.get_stats();
    assert_eq!(stats.total_items, 2);
    assert_eq!(stats.total_size, 109);
}

#[test]
fn project_walk_prunes_beneath_artifact_roots() {
    // A parents-first walk with an artifact root, a nested artifact root
    // and a matching temp file beneath it.
    let entries = vec![
        entry("/p", 0, true, 0, 0),
        entry("/p/src", 1, true, 0, 0),
        entry("/p/node_modules", 1, true, 0, 0),
        entry("/p/node_modules/sub", 2, true, 0, 0),
        entry("/p/node_modules/sub/node_modules", 3, true, 0, 0),
        entry("/p/node_modules/junk.tmp", 2, false, 5, 0),
        entry("/p/src/keep.tmp", 2, false, 5, 0),
    ];
    let mut s = Scanner::new(bare_config(Vec::new()));
    let pending = s.process_project_entries(&entries);

    // Only the outer node_modules is recorded; everything beneath it —
    // including the nested node_modules and the temp file — is pruned.
    assert_eq!(pending.len(), 1);
    assert_eq!(pending[0].path, "/p/node_modules");
    let items = s.get_items();
    assert_eq!(items.len(), 1);
    assert_eq!(items[0].path, "/p/src/keep.tmp");
    assert_eq!(items[0].category, FileCategory::TempFile);
    // Visited: /p, /p/src, /p/node_modules, /p/src/keep.tmp.
    assert_eq!(s.files_scanned(), 4);
}

#[test]
fn project_walk_emits_nothing_for_empty_files() {
    let entries = vec![
        entry("/p", 0, true, 0, 0),
        entry("/p/empty.tmp", 1, false, 0, 0),
        entry("/p/full.tmp", 1, false, 1, 0),
    ];
    let mut s = Scanner::new(bare_config(Vec::new()));
    s.process_project_entries(&entries);
    let items = s.get_items();
    assert_eq!(items.len(), 1);
    assert_eq!(items[0].path, "/p/full.tmp");
}

#[test]
fn project_walk_lowercases_names_before_matching() {
    let entries = vec![
        entry("/p", 0, true, 0, 0),
        entry("/p/REPORT.LOG", 1, false, 3, 0),
    ];
    let mut s = Scanner::new(bare_config(Vec::new()));
    s.process_project_entries(&entries);
    let items = s.get_items();
    assert_eq!(items.len(), 1);
    assert_eq!(items[0].category, FileCategory::LogFile);
    // The item keeps the original name.
    assert_eq!(items[0].name, "REPORT.LOG");
}

#[test]
fn pending_artifacts_become_items_even_when_unmeasurable() {
    let now: u64 = 40_000_000;
    let pending = vec![entry("/p/node_modules", 1, true, 0, now - 100 * DAY)];
    let mut s = Scanner::new(bare_config(Vec::new()));
    s.process_pending_artifacts(&pending, now);
    let items = s.get_items();
    assert_eq!(items.len(), 1);
    assert_eq!(items[0].category, FileCategory::DevArtifact);
    assert_eq!(items[0].path, "/p/node_modules");
    // The path does not exist, so its best-effort size is zero.
    assert_eq!(items[0].size, 0);
    assert!(items[0].is_stale);
    assert_eq!(items[0].confidence, 90);
}

#[test]
fn identical_snapshots_yield_identical_items() {
    let now: u64 = 40_000_000;
    let entries = vec![
        entry("/p", 0, true, 0, 0),
        entry("/p/node_modules", 1, true, 0, 0),
        entry("/p/a.log", 1, false, 7, 0),
        entry("/p/b.tmp", 1, false, 9, 0),
    ];
    let mut s1 = Scanner::new(bare_config(Vec::new()));
    let p1 = s1.process_project_entries(&entries);
    s1.process_pending_artifacts(&p1, now);
    let mut s2 = Scanner::new(bare_config(Vec::new()));
    let p2 = s2.process_project_entries(&entries);
    s2.process_pending_artifacts(&p2, now);
    let i1 = s1.get_items();
    let i2 = s2.get_items();
    assert_eq!(i1, i2);
}

#[test]
fn stop_keeps_strategies_from_starting() {
    let mut s = Scanner::new(bare_config(vec!["/definitely/not/here".to_string()]));
    s.request_stop();
    s.scan_known_cache_paths();
    s.scan_system_caches();
    s.scan_project_directories();
    s.scan_downloads();
    assert_eq!(s.get_items().len(), 0);
    assert_eq!(s.files_scanned(), 0);
}

#[test]
fn progress_accessors_reflect_state() {
    let mut s = Scanner::new(bare_config(Vec::new()));
    assert!(!s.is_scanning());
    assert_eq!(s.files_scanned(), 0);
    assert_eq!(s.current_path(), "");
    let entries = vec![entry("/p", 0, true, 0, 0), entry("/p/x.log", 1, false, 2, 0)];
    s.process_project_entries(&entries);
    assert_eq!(s.files_scanned(), 2);
}
