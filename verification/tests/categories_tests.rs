use sweeper::categories::CategoryPatterns;
use sweeper::categories::FileCategory;

#[test]
fn category_names() {
    assert_eq!(FileCategory::DevArtifact.name(), "Dev Artifacts");
    assert_eq!(FileCategory::PackageCache.name(), "Package Caches");
    assert_eq!(FileCategory::IdeCache.name(), "IDE Caches");
    assert_eq!(FileCategory::BrowserCache.name(), "Browser Caches");
    assert_eq!(FileCategory::SystemCache.name(), "System Caches");
    assert_eq!(FileCategory::LogFile.name(), "Log Files");
    assert_eq!(FileCategory::TempFile.name(), "Temp Files");
    assert_eq!(FileCategory::LargeFile.name(), "Large Files");
    assert_eq!(FileCategory::OldDownload.name(), "Old Downloads");
    assert_eq!(FileCategory::Duplicate.name(), "Duplicates");
    assert_eq!(FileCategory::Unused.name(), "Unused Files");
}

#[test]
fn category_icons() {
    assert_eq!(FileCategory::DevArtifact.icon(), "code");
    assert_eq!(FileCategory::PackageCache.icon(), "package");
    assert_eq!(FileCategory::IdeCache.icon(), "cpu");
    assert_eq!(FileCategory::BrowserCache.icon(), "globe");
    assert_eq!(FileCategory::SystemCache.icon(), "hard-drive");
    assert_eq!(FileCategory::LogFile.icon(), "file-text");
    assert_eq!(FileCategory::TempFile.icon(), "file-x");
    assert_eq!(FileCategory::LargeFile.icon(), "file-archive");
    assert_eq!(FileCategory::OldDownload.icon(), "download");
    assert_eq!(FileCategory::Duplicate.icon(), "copy");
    assert_eq!(FileCategory::Unused.icon(), "clock");
}

#[test]
fn category_descriptions() {
    assert_eq!(
        FileCategory::DevArtifact.description(),
        "Build outputs and dependencies (node_modules, target/, build/)"
    );
    assert_eq!(
        FileCategory::OldDownload.description(),
        "Downloaded files older than 30 days"
    );
    assert_eq!(
        FileCategory::Unused.description(),
        "Files not accessed in 90+ days"
    );
}

#[test]
fn base_confidence_weights() {
    assert_eq!(FileCategory::TempFile.base_confidence(), 95);
    assert_eq!(FileCategory::SystemCache.base_confidence(), 92);
    assert_eq!(FileCategory::BrowserCache.base_confidence(), 90);
    assert_eq!(FileCategory::PackageCache.base_confidence(), 88);
    assert_eq!(FileCategory::IdeCache.base_confidence(), 85);
    assert_eq!(FileCategory::LogFile.base_confidence(), 85);
    assert_eq!(FileCategory::DevArtifact.base_confidence(), 80);
    assert_eq!(FileCategory::OldDownload.base_confidence(), 75);
    assert_eq!(FileCategory::LargeFile.base_confidence(), 70);
    assert_eq!(FileCategory::Duplicate.base_confidence(), 70);
    assert_eq!(FileCategory::Unused.base_confidence(), 70);
}

#[test]
fn category_indices_are_distinct() {
    let all = [
        FileCategory::DevArtifact,
        FileCategory::PackageCache,
        FileCategory::IdeCache,
        FileCategory::BrowserCache,
        FileCategory::SystemCache,
        FileCategory::LogFile,
        FileCategory::TempFile,
        FileCategory::LargeFile,
        FileCategory::OldDownload,
        FileCategory::Duplicate,
        FileCategory::Unused,
    ];
    let mut seen = [false; 11];
    for c in all {
        let k = c.cat_index();
        assert!(k < 11);
        assert!(!seen[k]);
        seen[k] = true;
    }
}

#[test]
fn dev_artifact_table_contents() {
    let t = CategoryPatterns::dev_artifact_dirs();
    assert_eq!(t.len(), 27);
    assert_eq!(t[0], "node_modules");
    assert!(t.contains(&"target"));
    assert!(t.contains(&"__pycache__"));
    assert!(t.contains(&"bower_components"));
}

#[test]
fn suffix_table_contents() {
    let t = CategoryPatterns::temp_extensions();
    assert_eq!(t.len(), 15);
    assert_eq!(t[0], ".tmp");
    assert!(t.contains(&"~"));
    assert!(t.contains(&".partial"));
    let l = CategoryPatterns::log_extensions();
    assert_eq!(l, vec![".log", ".logs"]);
}

#[test]
fn threshold_constants() {
    assert_eq!(CategoryPatterns::stale_threshold_days(), 90);
    assert_eq!(CategoryPatterns::old_download_days(), 30);
    assert_eq!(CategoryPatterns::large_file_threshold(), 100 * 1024 * 1024);
}

#[test]
fn package_cache_paths_join_home() {
    let p = CategoryPatterns::package_cache_paths_from("/home/u");
    assert_eq!(p.len(), 12);
    assert_eq!(p[0], "/home/u/.npm");
    assert_eq!(p[3], "/home/u/.cargo/registry/cache");
    assert_eq!(p[11], "/home/u/.cache/go-build");
}

#[test]
fn ide_and_browser_cache_paths_join_home() {
    let p = CategoryPatterns::ide_cache_paths_from("/home/u");
    assert_eq!(p.len(), 6);
    assert_eq!(p[0], "/home/u/.vscode/extensions");
    let b = CategoryPatterns::browser_cache_paths_from("/home/u");
    assert_eq!(b.len(), 5);
    assert_eq!(b[0], "/home/u/.cache/google-chrome");
}

#[test]
fn system_cache_paths_include_shared_temp() {
    let s = CategoryPatterns::system_cache_paths_from("/home/u");
    assert_eq!(s, vec!["/home/u/.cache", "/tmp", "/var/tmp"]);
}
