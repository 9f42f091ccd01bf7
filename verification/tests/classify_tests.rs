use sweeper::categories::FileCategory;
use sweeper::classify::capped_confidence;
use sweeper::classify::classify_file_name;
use sweeper::classify::dev_artifact_item;
use sweeper::classify::file_item;
use sweeper::classify::is_dev_artifact_name;
use sweeper::classify::is_log_name;
use sweeper::classify::is_old_download;
use sweeper::classify::is_stale;
use sweeper::classify::is_temp_name;
use sweeper::classify::marker_matches_exec;
use sweeper::classify::old_download_item;
use sweeper::text::str_ends_with;
use sweeper::text::str_eq;
use sweeper::text::str_starts_with;

const DAY: u64 = 86400;

#[test]
fn temp_beats_log_on_compound_name() {
    // Both suffix sets match "app.tmp.log"; the temp check precedes the
    // log check.
    assert!(is_temp_name("app.tmp.log"));
    assert!(is_log_name("app.tmp.log"));
    assert_eq!(classify_file_name("app.tmp.log"), Some(FileCategory::TempFile));
}

#[test]
fn plain_suffix_classification() {
    assert_eq!(classify_file_name("report.log"), Some(FileCategory::LogFile));
    assert_eq!(classify_file_name("server.logs"), Some(FileCategory::LogFile));
    assert_eq!(classify_file_name("scratch.tmp"), Some(FileCategory::TempFile));
    assert_eq!(classify_file_name("backup.bak"), Some(FileCategory::TempFile));
    assert_eq!(classify_file_name("editor.swp"), Some(FileCategory::TempFile));
    assert_eq!(classify_file_name("notes~"), Some(FileCategory::TempFile));
    assert_eq!(classify_file_name("notes.txt"), None);
    assert_eq!(classify_file_name("catalog"), None);
}

#[test]
fn marker_matching_rules() {
    assert!(marker_matches_exec("a.tmp", ".tmp"));
    assert!(marker_matches_exec("a.tmp.log", ".tmp"));
    assert!(!marker_matches_exec("a.tmpx", ".tmp"));
    assert!(!marker_matches_exec("atmp", ".tmp"));
    assert!(!marker_matches_exec("", ".tmp"));
}

#[test]
fn dev_artifact_name_matching_is_exact() {
    assert!(is_dev_artifact_name("node_modules"));
    assert!(is_dev_artifact_name("target"));
    assert!(is_dev_artifact_name(".venv"));
    assert!(!is_dev_artifact_name("node_modules2"));
    assert!(!is_dev_artifact_name("Target"));
    // The glob entry is matched literally, so it never fires on real names.
    assert!(is_dev_artifact_name("*.egg-info"));
    assert!(!is_dev_artifact_name("foo.egg-info"));
}

#[test]
fn staleness_boundary_is_ninety_days() {
    let now: u64 = 20_000_000;
    // Exactly 90 days − 1 second old: not stale.
    assert!(!is_stale(now, now - (90 * DAY - 1)));
    // Exactly 90 days old (or older): stale.
    assert!(is_stale(now, now - 90 * DAY));
    assert!(is_stale(now, now - 90 * DAY - 1));
    // The future is never stale.
    assert!(!is_stale(now, now + 1));
}

#[test]
fn stale_artifact_confidence_is_boosted_and_capped() {
    let now: u64 = 20_000_000;
    let fresh = dev_artifact_item(
        "/p/node_modules".to_string(),
        "node_modules".to_string(),
        1234,
        now - (90 * DAY - 1),
        now,
    );
    assert_eq!(fresh.confidence, 80);
    assert!(!fresh.is_stale);
    let stale = dev_artifact_item(
        "/p/node_modules".to_string(),
        "node_modules".to_string(),
        1234,
        now - 90 * DAY,
        now,
    );
    assert_eq!(stale.confidence, 90);
    assert!(stale.is_stale);
    assert_eq!(stale.category, FileCategory::DevArtifact);
    assert!(stale.is_dir);
    assert_eq!(stale.size, 1234);
}

#[test]
fn confidence_cap_applies() {
    assert_eq!(capped_confidence(80, true, 98), 90);
    assert_eq!(capped_confidence(95, true, 98), 98);
    assert_eq!(capped_confidence(90, true, 95), 95);
    assert_eq!(capped_confidence(100, false, 98), 98);
    assert_eq!(capped_confidence(75, false, 95), 75);
}

#[test]
fn old_download_boundary_is_thirty_days_strict() {
    let now: u64 = 20_000_000;
    // 30 days and 1 second old: included.
    assert!(is_old_download(now, now - (30 * DAY + 1)));
    // 29 days, 23 hours old: excluded.
    assert!(!is_old_download(now, now - (30 * DAY - 3600)));
    // Exactly 30 days old: excluded (strictly older is required).
    assert!(!is_old_download(now, now - 30 * DAY));
}

#[test]
fn old_download_item_fields() {
    let now: u64 = 20_000_000;
    let young = old_download_item(
        "/d/movie.mkv".to_string(),
        "movie.mkv".to_string(),
        700,
        now - 31 * DAY,
        now,
    );
    assert_eq!(young.confidence, 75);
    assert!(!young.is_stale);
    assert!(!young.is_dir);
    let ancient = old_download_item(
        "/d/movie.mkv".to_string(),
        "movie.mkv".to_string(),
        700,
        now - 120 * DAY,
        now,
    );
    assert_eq!(ancient.confidence, 85);
    assert!(ancient.is_stale);
    assert_eq!(ancient.category, FileCategory::OldDownload);
}

#[test]
fn file_item_uses_base_confidence() {
    let item = file_item(
        "/p/a.log".to_string(),
        "a.log".to_string(),
        10,
        FileCategory::LogFile,
        5,
    );
    assert_eq!(item.confidence, 85);
    assert_eq!(item.category, FileCategory::LogFile);
    assert!(!item.is_dir);
    assert!(!item.is_stale);
    assert_eq!(item.modified, 5);
    assert_eq!(item.accessed, 5);
    assert!(item.hash.is_none());
}

#[test]
fn string_helpers() {
    assert!(str_eq("abc", "abc"));
    assert!(!str_eq("abc", "abd"));
    assert!(str_ends_with("hello.log", ".log"));
    assert!(!str_ends_with("hello.log", ".logs"));
    assert!(str_ends_with("x", ""));
    assert!(!str_ends_with("", "x"));
    assert!(str_starts_with("/a/b/c", "/a/b"));
    assert!(!str_starts_with("/a/b", "/a/b/c"));
}
