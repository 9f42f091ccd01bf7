use sweeper::categories::FileCategory;
use sweeper::classify::cache_dir_item;
use sweeper::classify::file_item;
use sweeper::inventory::FilterTab;
use sweeper::inventory::filtered_items;
use sweeper::inventory::selected_size;
use sweeper::inventory::size_distribution;
use sweeper::store::ScannedItem;

fn item(path: &str, category: FileCategory, size: u64) -> ScannedItem {
    match category {
        FileCategory::TempFile | FileCategory::LogFile => {
            file_item(path.to_string(), path.to_string(), size, category, 0)
        },
        _ => cache_dir_item(path.to_string(), path.to_string(), size, category, 0),
    }
}

fn sample() -> Vec<ScannedItem> {
    vec![
        item("/a", FileCategory::DevArtifact, 30),
        item("/b", FileCategory::PackageCache, 50),
        item("/c", FileCategory::TempFile, 10),
        item("/d", FileCategory::LogFile, 40),
        item("/e", FileCategory::OldDownload, 20),
        item("/f", FileCategory::SystemCache, 60),
    ]
}

#[test]
fn tab_labels_and_icons() {
    assert_eq!(FilterTab::All.label(), "All Files");
    assert_eq!(FilterTab::Largest.label(), "Largest");
    assert_eq!(FilterTab::TempLogs.label(), "Temp & Logs");
    assert_eq!(FilterTab::All.icon(), "layers");
    assert_eq!(FilterTab::Largest.icon(), "arrow-down-wide-narrow");
    assert_eq!(FilterTab::Downloads.icon(), "download");
}

#[test]
fn all_tab_sorts_largest_first() {
    let v = filtered_items(&sample(), FilterTab::All);
    let sizes: Vec<u64> = v.iter().map(|i| i.size).collect();
    assert_eq!(sizes, vec![60, 50, 40, 30, 20, 10]);
    let v = filtered_items(&sample(), FilterTab::Largest);
    let sizes: Vec<u64> = v.iter().map(|i| i.size).collect();
    assert_eq!(sizes, vec![60, 50, 40, 30, 20, 10]);
}

#[test]
fn category_tabs_filter() {
    let dev = filtered_items(&sample(), FilterTab::DevArtifacts);
    assert_eq!(dev.len(), 1);
    assert_eq!(dev[0].path, "/a");

    let caches = filtered_items(&sample(), FilterTab::Caches);
    let paths: Vec<&str> = caches.iter().map(|i| i.path.as_str()).collect();
    assert_eq!(paths, vec!["/f", "/b"]);

    let tl = filtered_items(&sample(), FilterTab::TempLogs);
    let paths: Vec<&str> = tl.iter().map(|i| i.path.as_str()).collect();
    assert_eq!(paths, vec!["/d", "/c"]);

    let dl = filtered_items(&sample(), FilterTab::Downloads);
    assert_eq!(dl.len(), 1);
    assert_eq!(dl[0].path, "/e");
}

#[test]
fn selected_size_sums_only_selected_paths() {
    let items = sample();
    let selected = vec!["/b".to_string(), "/c".to_string(), "/nope".to_string()];
    assert_eq!(selected_size(&items, &selected), 60);
    assert_eq!(selected_size(&items, &Vec::new()), 0);
}

#[test]
fn size_distribution_of_few_items() {
    let items = vec![
        item("/x", FileCategory::TempFile, 5),
        item("/y", FileCategory::TempFile, 1),
        item("/z", FileCategory::TempFile, 3),
    ];
    let d = size_distribution(&items);
    assert_eq!(d, vec![1, 3, 5, 0, 0, 0, 0, 0, 0, 0]);
}

#[test]
fn size_distribution_of_empty_inventory() {
    let d = size_distribution(&Vec::new());
    assert_eq!(d, vec![0; 10]);
}

#[test]
fn size_distribution_chunks_sorted_sizes() {
    let items: Vec<ScannedItem> = (1..=20u64)
        .map(|s| item(&format!("/i{s}"), FileCategory::LogFile, s))
        .collect();
    let d = size_distribution(&items);
    assert_eq!(d, vec![3, 7, 11, 15, 19, 23, 27, 31, 35, 39]);
}
