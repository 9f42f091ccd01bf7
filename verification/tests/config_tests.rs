use sweeper::categories::FileCategory;
use sweeper::config::Config;
use sweeper::dominance::DominanceTracker;
use sweeper::dominance::path_descends;

#[test]
fn default_excludes_list() {
    let e = Config::default_excludes();
    assert_eq!(
        e,
        vec![".git", ".svn", ".hg", "/usr", "/bin", "/sbin", "/etc", "/var/lib"]
    );
}

#[test]
fn default_config_values() {
    let c = Config::default();
    assert_eq!(c.large_file_threshold, 100 * 1024 * 1024);
    assert_eq!(c.stale_days_threshold, 90);
    assert_eq!(c.old_download_days, 30);
    assert!(c.show_hidden);
    assert!(!c.follow_symlinks);
    assert_eq!(c.max_depth, 20);
    assert!(c.use_trash);
    assert!(!c.dry_run);
    assert_eq!(c.enabled_categories.len(), 9);
    assert!(c.enabled_categories.contains(&FileCategory::DevArtifact));
    assert!(c.enabled_categories.contains(&FileCategory::OldDownload));
    assert!(!c.enabled_categories.contains(&FileCategory::Duplicate));
    assert!(!c.enabled_categories.contains(&FileCategory::Unused));
}

#[test]
fn scan_path_selection_keeps_flagged_candidates() {
    let present = vec![true, false, false, true, false, false];
    let r = Config::default_scan_paths_from("/h", "/dl", &present, true, false);
    assert_eq!(r, vec!["/h/Projects", "/h/dev", "/dl"]);

    let some_cache = Config::default_scan_paths_from("/h", "/dl", &vec![false; 6], false, true);
    assert_eq!(some_cache, vec!["/h/.cache"]);
}

#[test]
fn scan_path_selection_falls_back_to_home() {
    let r = Config::default_scan_paths_from("/h", "/dl", &vec![false; 6], false, false);
    assert_eq!(r, vec!["/h"]);
}

#[test]
fn path_descent_relation() {
    assert!(path_descends("/a/b", "/a/b"));
    assert!(path_descends("/a/b/c", "/a/b"));
    assert!(path_descends("/a/b/c/d", "/a/b"));
    assert!(!path_descends("/a/bc", "/a/b"));
    assert!(!path_descends("/a", "/a/b"));
    assert!(!path_descends("/x/y", "/a"));
}

#[test]
fn dominance_tracker_filters_descendants() {
    let mut t = DominanceTracker::new();
    assert!(!t.is_dominated("/p/node_modules"));
    t.record("/p/node_modules".to_string());
    assert!(t.is_dominated("/p/node_modules"));
    assert!(t.is_dominated("/p/node_modules/sub/deep"));
    assert!(!t.is_dominated("/p/node_modules2"));
    assert!(!t.is_dominated("/p"));
    t.clear();
    assert!(!t.is_dominated("/p/node_modules"));
}
