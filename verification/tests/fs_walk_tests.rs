use std::io::Write;
use sweeper::categories::FileCategory;
use sweeper::config::Config;
use sweeper::platform::size_text;
use sweeper::scanner::Scanner;
use sweeper::scanner::dir_size;

const MIB: u64 = 1024 * 1024;

fn config_for(root: &std::path::Path) -> Config {
    Config {
        scan_paths: vec![root.to_string_lossy().to_string()],
        exclude_patterns: Vec::new(),
        enabled_categories: Vec::new(),
        large_file_threshold: 100 * 1024 * 1024,
        stale_days_threshold: 90,
        old_download_days: 30,
        show_hidden: true,
        follow_symlinks: false,
        max_depth: 20,
        use_trash: true,
        dry_run: false,
    }
}

fn make_dir(parent: &std::path::Path, name: &str) -> tempfile::TempDir {
    tempfile::Builder::new()
        .prefix(name)
        .rand_bytes(0)
        .tempdir_in(parent)
        .unwrap()
}

fn make_file(parent: &std::path::Path, name: &str, mib: u64) -> tempfile::NamedTempFile {
    let mut f = tempfile::Builder::new()
        .prefix(name)
        .rand_bytes(0)
        .tempfile_in(parent)
        .unwrap();
    let chunk = vec![7u8; MIB as usize];
    for _ in 0..mib {
        f.write_all(&chunk).unwrap();
    }
    f.flush().unwrap();
    f
}

#[test]
fn nested_artifact_roots_collapse_to_one_item() {
    let root = tempfile::tempdir().unwrap();
    let nm = make_dir(root.path(), "node_modules");
    let sub = make_dir(nm.path(), "sub");
    let nested = make_dir(sub.path(), "node_modules");
    let _big = make_file(nm.path(), "bundle.bin", 50);
    let _small = make_file(nested.path(), "dep.bin", 5);

    let mut s = Scanner::new(config_for(root.path()));
    s.scan_project_directories();
    let items = s.get_items();

    // Exactly one dev-artifact item, for the outer node_modules, sized
    // with everything beneath it (the nested copy included) — and no
    // separate item for the nested node_modules.
    assert_eq!(items.len(), 1);
    let item = &items[0];
    assert_eq!(item.category, FileCategory::DevArtifact);
    assert_eq!(item.path, nm.path().to_string_lossy().to_string());
    assert_eq!(item.size, 55 * MIB);
    assert!(item.is_dir);
    let stats = s.get_stats();
    assert_eq!(stats.total_items, 1);
    assert_eq!(stats.total_size, 55 * MIB);
}

#[test]
fn walked_temp_and_log_files_are_classified() {
    let root = tempfile::tempdir().unwrap();
    let _a = make_file(root.path(), "app.tmp.log", 1);
    let _b = make_file(root.path(), "server.log", 1);
    let _c = make_file(root.path(), "NOTES.TXT", 1);

    let mut s = Scanner::new(config_for(root.path()));
    s.scan_project_directories();
    let mut found: Vec<(String, FileCategory)> = s
        .get_items()
        .iter()
        .map(|i| (i.name.clone(), i.category))
        .collect();
    found.sort();

    assert_eq!(found.len(), 2);
    assert_eq!(found[0], ("app.tmp.log".to_string(), FileCategory::TempFile));
    assert_eq!(found[1], ("server.log".to_string(), FileCategory::LogFile));
}

#[test]
fn max_depth_bounds_the_walk() {
    let root = tempfile::tempdir().unwrap();
    let deep = make_dir(root.path(), "deep");
    let _hidden = make_file(deep.path(), "missed.log", 1);

    let mut config = config_for(root.path());
    config.max_depth = 1;
    let mut s = Scanner::new(config);
    s.scan_project_directories();
    // The log file sits at depth 2, beyond the configured bound.
    assert_eq!(s.get_items().len(), 0);
}

#[test]
fn consecutive_scans_agree() {
    let root = tempfile::tempdir().unwrap();
    let _nm = make_dir(root.path(), "target");
    let _a = make_file(root.path(), "x.log", 1);
    let _b = make_file(_nm.path(), "obj.bin", 2);

    let mut s1 = Scanner::new(config_for(root.path()));
    s1.scan_project_directories();
    let mut s2 = Scanner::new(config_for(root.path()));
    s2.scan_project_directories();

    let key = |s: &Scanner| {
        let mut v: Vec<(String, FileCategory, u64)> = s
            .get_items()
            .iter()
            .map(|i| (i.path.clone(), i.category, i.size))
            .collect();
        v.sort();
        v
    };
    let mut a = s1;
    let mut b = s2;
    assert_eq!(key(&mut a), key(&mut b));
}

#[test]
fn dir_size_sums_files_recursively() {
    let root = tempfile::tempdir().unwrap();
    let sub = make_dir(root.path(), "sub");
    let _a = make_file(root.path(), "a.bin", 1);
    let _b = make_file(sub.path(), "b.bin", 2);
    assert_eq!(dir_size(&root.path().to_string_lossy()), 3 * MIB);
    assert_eq!(dir_size("/no/such/path/exists/here"), 0);
}

#[test]
fn full_scan_returns_consistent_snapshot() {
    let root = tempfile::tempdir().unwrap();
    let _a = make_file(root.path(), "only.log", 1);
    let mut s = Scanner::new(config_for(root.path()));
    let items = s.scan();
    assert!(!s.is_scanning());
    let stats = s.get_stats();
    // The scan's snapshot and statistics agree, whatever else the machine's
    // cache directories contributed.
    assert_eq!(stats.total_items as usize, items.len());
    let total: u64 = items.iter().map(|i| i.size).sum();
    assert_eq!(stats.total_size, total);
    for item in &items {
        assert!(item.confidence <= 100);
        if item.category == FileCategory::DevArtifact {
            assert!(item.confidence <= 98);
        }
        if item.category == FileCategory::OldDownload {
            assert!(item.confidence <= 95);
        }
    }
}

#[test]
fn size_text_renders_byte_counts() {
    assert_eq!(size_text(0), "0 B");
    assert_eq!(size_text(512), "512 B");
    let mib = size_text(2 * MIB);
    assert!(mib.contains("MiB"), "unexpected rendering: {mib}");
}
