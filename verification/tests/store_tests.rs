use sweeper::categories::FileCategory;
use sweeper::classify::file_item;
use sweeper::classify::old_download_item;
use sweeper::store::ResultStore;
use sweeper::store::ScannedItem;
use sweeper::store::compute_stats;

fn log_item(path: &str, size: u64) -> ScannedItem {
    file_item(
        path.to_string(),
        path.rsplit('/').next().unwrap().to_string(),
        size,
        FileCategory::LogFile,
        1000,
    )
}

fn temp_item(path: &str, size: u64) -> ScannedItem {
    file_item(
        path.to_string(),
        path.rsplit('/').next().unwrap().to_string(),
        size,
        FileCategory::TempFile,
        1000,
    )
}

#[test]
fn new_store_is_empty() {
    let s = ResultStore::new();
    assert_eq!(s.items.len(), 0);
    assert_eq!(s.stats.total_items, 0);
    assert_eq!(s.stats.total_size, 0);
    assert_eq!(s.stats.duration_ms, 0);
    assert_eq!(s.stats.items_by_category.len(), 11);
    assert_eq!(s.stats.size_by_category.len(), 11);
}

#[test]
fn add_item_updates_every_aggregate_atomically() {
    let mut s = ResultStore::new();
    s.add_item(log_item("/x/a.log", 100));
    s.add_item(log_item("/x/b.log", 50));
    s.add_item(temp_item("/x/c.tmp", 7));

    assert_eq!(s.items.len(), 3);
    assert_eq!(s.stats.total_items, 3);
    assert_eq!(s.stats.total_size, 157);
    assert_eq!(s.stats.items_in_category(FileCategory::LogFile), 2);
    assert_eq!(s.stats.size_of_category(FileCategory::LogFile), 150);
    assert_eq!(s.stats.items_in_category(FileCategory::TempFile), 1);
    assert_eq!(s.stats.size_of_category(FileCategory::TempFile), 7);
    assert_eq!(s.stats.items_in_category(FileCategory::DevArtifact), 0);

    // The statistics always equal the sums over the current items.
    let total: u64 = s.items.iter().map(|i| i.size).sum();
    assert_eq!(s.stats.total_size, total);
}

#[test]
fn remove_paths_recomputes_aggregates() {
    let mut s = ResultStore::new();
    s.add_item(log_item("/x/a.log", 100));
    s.add_item(log_item("/x/b.log", 50));
    s.add_item(temp_item("/x/c.tmp", 7));
    s.set_duration(42);

    s.remove_paths(&vec!["/x/a.log".to_string(), "/nothere".to_string()]);

    assert_eq!(s.items.len(), 2);
    assert_eq!(s.items[0].path, "/x/b.log");
    assert_eq!(s.items[1].path, "/x/c.tmp");
    assert_eq!(s.stats.total_items, 2);
    assert_eq!(s.stats.total_size, 57);
    assert_eq!(s.stats.items_in_category(FileCategory::LogFile), 1);
    assert_eq!(s.stats.size_of_category(FileCategory::LogFile), 50);
    // Removal keeps the recorded duration.
    assert_eq!(s.stats.duration_ms, 42);
}

#[test]
fn remove_all_paths_empties_the_store() {
    let mut s = ResultStore::new();
    s.add_item(log_item("/x/a.log", 100));
    s.remove_paths(&vec!["/x/a.log".to_string()]);
    assert_eq!(s.items.len(), 0);
    assert_eq!(s.stats.total_items, 0);
    assert_eq!(s.stats.total_size, 0);
    assert_eq!(s.stats.items_in_category(FileCategory::LogFile), 0);
}

#[test]
fn snapshots_are_defensive_copies() {
    let mut s = ResultStore::new();
    s.add_item(temp_item("/x/c.tmp", 7));
    let items = s.get_items();
    let stats = s.get_stats();
    s.add_item(temp_item("/x/d.tmp", 9));
    assert_eq!(items.len(), 1);
    assert_eq!(stats.total_items, 1);
    assert_eq!(s.items.len(), 2);
}

#[test]
fn compute_stats_matches_manual_sums() {
    let items = vec![
        old_download_item("/d/a".to_string(), "a".to_string(), 11, 0, 0),
        old_download_item("/d/b".to_string(), "b".to_string(), 22, 0, 0),
        temp_item("/x/c.tmp", 33),
    ];
    let st = compute_stats(&items, 5);
    assert_eq!(st.total_items, 3);
    assert_eq!(st.total_size, 66);
    assert_eq!(st.duration_ms, 5);
    assert_eq!(st.items_in_category(FileCategory::OldDownload), 2);
    assert_eq!(st.size_of_category(FileCategory::OldDownload), 33);
    assert_eq!(st.size_of_category(FileCategory::TempFile), 33);
}

#[test]
fn item_display_helpers() {
    let item = temp_item("/x/c.tmp", 7);
    assert_eq!(item.confidence_percent(), 95);
    let copy = item.duplicate();
    assert_eq!(copy, item);
}
