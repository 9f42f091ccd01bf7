//! Static classification data: the category enum, its display metadata and
//! base confidence weights, the dev-artifact directory name set, the temp/log
//! file suffix sets, and the threshold constants.

use vstd::prelude::*;
use vstd::seq_lib::*;
use vstd::string::StringExecFns;
use crate::platform::home_dir_path;
use crate::text::path_views;

verus! {

/// One of the closed set of reclaimable-item categories.
///
/// `LargeFile`, `Duplicate` and `Unused` carry display metadata and weights
/// but no traversal strategy currently produces them; they are reserved
/// extension points.
#[derive(Debug, Clone, Copy, PartialEq, Eq, PartialOrd, Ord, Hash, Structural)]
pub enum FileCategory {
    DevArtifact,
    PackageCache,
    IdeCache,
    BrowserCache,
    SystemCache,
    LogFile,
    TempFile,
    LargeFile,
    OldDownload,
    Duplicate,
    Unused,
}

/// Confidence values are carried as integer percentages in `0 ..= 100`,
/// standing for a confidence in `[0, 1]` in hundredths.
pub open spec fn spec_base_confidence(c: FileCategory) -> u8 {
    match c {
        FileCategory::TempFile => 95u8,
        FileCategory::SystemCache => 92u8,
        FileCategory::BrowserCache => 90u8,
        FileCategory::PackageCache => 88u8,
        FileCategory::IdeCache => 85u8,
        FileCategory::LogFile => 85u8,
        FileCategory::DevArtifact => 80u8,
        FileCategory::OldDownload => 75u8,
        FileCategory::LargeFile => 70u8,
        FileCategory::Duplicate => 70u8,
        FileCategory::Unused => 70u8,
    }
}

pub open spec fn spec_name(c: FileCategory) -> Seq<char> {
    match c {
        FileCategory::DevArtifact => "Dev Artifacts"@,
        FileCategory::PackageCache => "Package Caches"@,
        FileCategory::IdeCache => "IDE Caches"@,
        FileCategory::BrowserCache => "Browser Caches"@,
        FileCategory::SystemCache => "System Caches"@,
        FileCategory::LogFile => "Log Files"@,
        FileCategory::TempFile => "Temp Files"@,
        FileCategory::LargeFile => "Large Files"@,
        FileCategory::OldDownload => "Old Downloads"@,
        FileCategory::Duplicate => "Duplicates"@,
        FileCategory::Unused => "Unused Files"@,
    }
}

pub open spec fn spec_icon(c: FileCategory) -> Seq<char> {
    match c {
        FileCategory::DevArtifact => "code"@,
        FileCategory::PackageCache => "package"@,
        FileCategory::IdeCache => "cpu"@,
        FileCategory::BrowserCache => "globe"@,
        FileCategory::SystemCache => "hard-drive"@,
        FileCategory::LogFile => "file-text"@,
        FileCategory::TempFile => "file-x"@,
        FileCategory::LargeFile => "file-archive"@,
        FileCategory::OldDownload => "download"@,
        FileCategory::Duplicate => "copy"@,
        FileCategory::Unused => "clock"@,
    }
}

pub open spec fn spec_description(c: FileCategory) -> Seq<char> {
    match c {
        FileCategory::DevArtifact => "Build outputs and dependencies (node_modules, target/, build/)"@,
        FileCategory::PackageCache => "Package manager caches (npm, cargo, pip, etc.)"@,
        FileCategory::IdeCache => "IDE and editor caches (VS Code, JetBrains, etc.)"@,
        FileCategory::BrowserCache => "Web browser cached data"@,
        FileCategory::SystemCache => "System and application caches"@,
        FileCategory::LogFile => "Application and system log files"@,
        FileCategory::TempFile => "Temporary files and directories"@,
        FileCategory::LargeFile => "Files larger than 100MB"@,
        FileCategory::OldDownload => "Downloaded files older than 30 days"@,
        FileCategory::Duplicate => "Files with identical content"@,
        FileCategory::Unused => "Files not accessed in 90+ days"@,
    }
}

/// A dense index for the category, used to key per-category aggregate tables.
pub open spec fn spec_cat_index(c: FileCategory) -> int {
    match c {
        FileCategory::DevArtifact => 0,
        FileCategory::PackageCache => 1,
        FileCategory::IdeCache => 2,
        FileCategory::BrowserCache => 3,
        FileCategory::SystemCache => 4,
        FileCategory::LogFile => 5,
        FileCategory::TempFile => 6,
        FileCategory::LargeFile => 7,
        FileCategory::OldDownload => 8,
        FileCategory::Duplicate => 9,
        FileCategory::Unused => 10,
    }
}

/// The number of categories; per-category tables have this length.
pub const CATEGORY_COUNT: usize = 11;

/// Confidence bonus (in percentage points) added to a stale item.
pub const STALE_CONFIDENCE_BONUS: u8 = 10;

/// Ceiling for a dev-artifact item's confidence after the staleness bonus.
pub const DEV_ARTIFACT_CONFIDENCE_CAP: u8 = 98;

/// Ceiling for an old-download item's confidence after the staleness bonus.
pub const OLD_DOWNLOAD_CONFIDENCE_CAP: u8 = 95;

impl FileCategory {
    pub fn name(&self) -> (r: &'static str)
        ensures
            r@ == spec_name(*self),
    {
        match self {
            FileCategory::DevArtifact => "Dev Artifacts",
            FileCategory::PackageCache => "Package Caches",
            FileCategory::IdeCache => "IDE Caches",
            FileCategory::BrowserCache => "Browser Caches",
            FileCategory::SystemCache => "System Caches",
            FileCategory::LogFile => "Log Files",
            FileCategory::TempFile => "Temp Files",
            FileCategory::LargeFile => "Large Files",
            FileCategory::OldDownload => "Old Downloads",
            FileCategory::Duplicate => "Duplicates",
            FileCategory::Unused => "Unused Files",
        }
    }

    pub fn icon(&self) -> (r: &'static str)
        ensures
            r@ == spec_icon(*self),
    {
        match self {
            FileCategory::DevArtifact => "code",
            FileCategory::PackageCache => "package",
            FileCategory::IdeCache => "cpu",
            FileCategory::BrowserCache => "globe",
            FileCategory::SystemCache => "hard-drive",
            FileCategory::LogFile => "file-text",
            FileCategory::TempFile => "file-x",
            FileCategory::LargeFile => "file-archive",
            FileCategory::OldDownload => "download",
            FileCategory::Duplicate => "copy",
            FileCategory::Unused => "clock",
        }
    }

    /// The category's base confidence weight, as an integer percentage.
    pub fn base_confidence(&self) -> (r: u8)
        ensures
            r == spec_base_confidence(*self),
            0 < r <= 100,
    {
        match self {
            FileCategory::TempFile => 95,
            FileCategory::SystemCache => 92,
            FileCategory::BrowserCache => 90,
            FileCategory::PackageCache => 88,
            FileCategory::IdeCache => 85,
            FileCategory::LogFile => 85,
            FileCategory::DevArtifact => 80,
            FileCategory::OldDownload => 75,
            FileCategory::LargeFile => 70,
            FileCategory::Duplicate => 70,
            FileCategory::Unused => 70,
        }
    }

    pub fn description(&self) -> (r: &'static str)
        ensures
            r@ == spec_description(*self),
    {
        match self {
            FileCategory::DevArtifact => "Build outputs and dependencies (node_modules, target/, build/)",
            FileCategory::PackageCache => "Package manager caches (npm, cargo, pip, etc.)",
            FileCategory::IdeCache => "IDE and editor caches (VS Code, JetBrains, etc.)",
            FileCategory::BrowserCache => "Web browser cached data",
            FileCategory::SystemCache => "System and application caches",
            FileCategory::LogFile => "Application and system log files",
            FileCategory::TempFile => "Temporary files and directories",
            FileCategory::LargeFile => "Files larger than 100MB",
            FileCategory::OldDownload => "Downloaded files older than 30 days",
            FileCategory::Duplicate => "Files with identical content",
            FileCategory::Unused => "Files not accessed in 90+ days",
        }
    }

    /// The dense index of this category; always below `CATEGORY_COUNT`.
    pub fn cat_index(&self) -> (r: usize)
        ensures
            r == spec_cat_index(*self),
            r < CATEGORY_COUNT,
    {
        match self {
            FileCategory::DevArtifact => 0,
            FileCategory::PackageCache => 1,
            FileCategory::IdeCache => 2,
            FileCategory::BrowserCache => 3,
            FileCategory::SystemCache => 4,
            FileCategory::LogFile => 5,
            FileCategory::TempFile => 6,
            FileCategory::LargeFile => 7,
            FileCategory::OldDownload => 8,
            FileCategory::Duplicate => 9,
            FileCategory::Unused => 10,
        }
    }
}

/// Directory names that mark a whole directory as a dev build/dependency
/// artifact.  (These are matched exactly against the directory name, so the
/// `*.egg-info` entry, kept for completeness, never matches.)
pub open spec fn dev_artifact_dir_names() -> Seq<Seq<char>> {
    seq![
        "node_modules"@,
        "target"@,
        "build"@,
        "dist"@,
        ".build"@,
        "Pods"@,
        "DerivedData"@,
        ".gradle"@,
        "out"@,
        "bin"@,
        "obj"@,
        "__pycache__"@,
        ".pytest_cache"@,
        ".mypy_cache"@,
        "venv"@,
        ".venv"@,
        "vendor"@,
        ".next"@,
        ".nuxt"@,
        ".output"@,
        "coverage"@,
        ".coverage"@,
        ".tox"@,
        "eggs"@,
        "*.egg-info"@,
        ".eggs"@,
        "bower_components"@,
    ]
}

/// Suffixes that mark a (lowercased) file name as a temp file.
pub open spec fn temp_extension_names() -> Seq<Seq<char>> {
    seq![
        ".tmp"@,
        ".temp"@,
        ".bak"@,
        ".swp"@,
        ".swo"@,
        "~"@,
        ".old"@,
        ".orig"@,
        ".DS_Store"@,
        "Thumbs.db"@,
        "._.DS_Store"@,
        "desktop.ini"@,
        ".crdownload"@,
        ".part"@,
        ".partial"@,
    ]
}

/// Suffixes that mark a (lowercased) file name as a log file.
pub open spec fn log_extension_names() -> Seq<Seq<char>> {
    seq![".log"@, ".logs"@]
}

/// The static classification tables and threshold constants.
pub struct CategoryPatterns;

impl CategoryPatterns {
    /// The dev-artifact directory name set, in table order.
    pub fn dev_artifact_dirs() -> (r: Vec<&'static str>)
        ensures
            r@.len() == dev_artifact_dir_names().len(),
            forall|i: int| 0 <= i < r@.len() ==> r@[i]@ == dev_artifact_dir_names()[i],
    {
        let mut v: Vec<&'static str> = Vec::new();
        v.push("node_modules");
        v.push("target");
        v.push("build");
        v.push("dist");
        v.push(".build");
        v.push("Pods");
        v.push("DerivedData");
        v.push(".gradle");
        v.push("out");
        v.push("bin");
        v.push("obj");
        v.push("__pycache__");
        v.push(".pytest_cache");
        v.push(".mypy_cache");
        v.push("venv");
        v.push(".venv");
        v.push("vendor");
        v.push(".next");
        v.push(".nuxt");
        v.push(".output");
        v.push("coverage");
        v.push(".coverage");
        v.push(".tox");
        v.push("eggs");
        v.push("*.egg-info");
        v.push(".eggs");
        v.push("bower_components");
        v
    }

    /// The temp-file suffix set, in table order.
    pub fn temp_extensions() -> (r: Vec<&'static str>)
        ensures
            r@.len() == temp_extension_names().len(),
            forall|i: int| 0 <= i < r@.len() ==> r@[i]@ == temp_extension_names()[i],
    {
        let mut v: Vec<&'static str> = Vec::new();
        v.push(".tmp");
        v.push(".temp");
        v.push(".bak");
        v.push(".swp");
        v.push(".swo");
        v.push("~");
        v.push(".old");
        v.push(".orig");
        v.push(".DS_Store");
        v.push("Thumbs.db");
        v.push("._.DS_Store");
        v.push("desktop.ini");
        v.push(".crdownload");
        v.push(".part");
        v.push(".partial");
        v
    }

    /// The log-file suffix set, in table order.
    pub fn log_extensions() -> (r: Vec<&'static str>)
        ensures
            r@.len() == log_extension_names().len(),
            forall|i: int| 0 <= i < r@.len() ==> r@[i]@ == log_extension_names()[i],
    {
        let mut v: Vec<&'static str> = Vec::new();
        v.push(".log");
        v.push(".logs");
        v
    }

    /// Age in days past which an item counts as stale.
    pub fn stale_threshold_days() -> (r: u64)
        ensures
            r == 90,
    {
        90
    }

    /// Age in days past which a downloads-directory file qualifies.
    pub fn old_download_days() -> (r: u64)
        ensures
            r == 30,
    {
        30
    }

    /// Size in bytes past which a file counts as large.
    pub fn large_file_threshold() -> (r: u64)
        ensures
            r == 100 * 1024 * 1024,
    {
        100 * 1024 * 1024
    }

    /// Package-manager cache roots for the platform home directory, or the
    /// empty table when no home directory is known.
    pub fn package_cache_paths() -> (r: Vec<String>)
        ensures
            r@.len() == 0 || exists|home: Seq<char>|
                path_views(r@) == prefixed_views(home, package_cache_suffixes()),
    {
        match home_dir_path() {
            None => Vec::new(),
            Some(h) => {
                let r = Self::package_cache_paths_from(h.as_str());
                proof {
                    assert(path_views(r@) == prefixed_views(h@, package_cache_suffixes()));
                }
                r
            },
        }
    }

    /// Package-manager cache roots under the given home directory.
    pub fn package_cache_paths_from(home: &str) -> (r: Vec<String>)
        ensures
            path_views(r@) == prefixed_views(home@, package_cache_suffixes()),
    {
        let table = package_cache_suffix_table();
        join_all(home, &table, Ghost(package_cache_suffixes()))
    }

    /// IDE/editor cache roots, or the empty table when no home is known.
    pub fn ide_cache_paths() -> (r: Vec<String>)
        ensures
            r@.len() == 0 || exists|home: Seq<char>|
                path_views(r@) == prefixed_views(home, ide_cache_suffixes()),
    {
        match home_dir_path() {
            None => Vec::new(),
            Some(h) => {
                let r = Self::ide_cache_paths_from(h.as_str());
                proof {
                    assert(path_views(r@) == prefixed_views(h@, ide_cache_suffixes()));
                }
                r
            },
        }
    }

    /// IDE/editor cache roots under the given home directory.
    pub fn ide_cache_paths_from(home: &str) -> (r: Vec<String>)
        ensures
            path_views(r@) == prefixed_views(home@, ide_cache_suffixes()),
    {
        let table = ide_cache_suffix_table();
        join_all(home, &table, Ghost(ide_cache_suffixes()))
    }

    /// Browser cache roots, or the empty table when no home is known.
    pub fn browser_cache_paths() -> (r: Vec<String>)
        ensures
            r@.len() == 0 || exists|home: Seq<char>|
                path_views(r@) == prefixed_views(home, browser_cache_suffixes()),
    {
        match home_dir_path() {
            None => Vec::new(),
            Some(h) => {
                let r = Self::browser_cache_paths_from(h.as_str());
                proof {
                    assert(path_views(r@) == prefixed_views(h@, browser_cache_suffixes()));
                }
                r
            },
        }
    }

    /// Browser cache roots under the given home directory.
    pub fn browser_cache_paths_from(home: &str) -> (r: Vec<String>)
        ensures
            path_views(r@) == prefixed_views(home@, browser_cache_suffixes()),
    {
        let table = browser_cache_suffix_table();
        join_all(home, &table, Ghost(browser_cache_suffixes()))
    }

    /// System cache roots, or the empty table when no home is known.
    pub fn system_cache_paths() -> (r: Vec<String>)
        ensures
            r@.len() == 0 || exists|home: Seq<char>|
                path_views(r@) == system_cache_path_views(home),
    {
        match home_dir_path() {
            None => Vec::new(),
            Some(h) => {
                let r = Self::system_cache_paths_from(h.as_str());
                proof {
                    assert(path_views(r@) == system_cache_path_views(h@));
                }
                r
            },
        }
    }

    /// System cache roots for the given home directory: the user cache
    /// directory plus the shared temporary directories.
    pub fn system_cache_paths_from(home: &str) -> (r: Vec<String>)
        ensures
            path_views(r@) == system_cache_path_views(home@),
    {
        let mut r: Vec<String> = Vec::new();
        let mut cache = home.to_owned();
        cache.append("/.cache");
        r.push(cache);
        r.push(String::from_str("/tmp"));
        r.push(String::from_str("/var/tmp"));
        proof {
            assert(path_views(r@) =~= system_cache_path_views(home@));
        }
        r
    }
}

/// Each suffix appended to `home`.
pub open spec fn prefixed_views(home: Seq<char>, suffixes: Seq<Seq<char>>) -> Seq<Seq<char>> {
    suffixes.map_values(|s: Seq<char>| home + s)
}

/// Home-relative package-manager cache locations.
pub open spec fn package_cache_suffixes() -> Seq<Seq<char>> {
    seq![
        "/.npm"@,
        "/.yarn/cache"@,
        "/.pnpm-store"@,
        "/.cargo/registry/cache"@,
        "/.cargo/git/db"@,
        "/.gradle/caches"@,
        "/.m2/repository"@,
        "/.gem/cache"@,
        "/.composer/cache"@,
        "/.nuget/packages"@,
        "/.cache/pip"@,
        "/.cache/go-build"@,
    ]
}

/// Home-relative IDE and editor cache locations.
pub open spec fn ide_cache_suffixes() -> Seq<Seq<char>> {
    seq![
        "/.vscode/extensions"@,
        "/.cursor/extensions"@,
        "/.zed/extensions"@,
        "/.local/share/JetBrains"@,
        "/.config/Code/CachedData"@,
        "/.config/Code/CachedExtensions"@,
    ]
}

/// Home-relative browser cache locations.
pub open spec fn browser_cache_suffixes() -> Seq<Seq<char>> {
    seq![
        "/.cache/google-chrome"@,
        "/.cache/mozilla/firefox"@,
        "/.cache/chromium"@,
        "/.cache/microsoft-edge"@,
        "/.cache/BraveSoftware"@,
    ]
}

/// System cache roots: the user cache directory and shared temp directories.
pub open spec fn system_cache_path_views(home: Seq<char>) -> Seq<Seq<char>> {
    seq![home + "/.cache"@, "/tmp"@, "/var/tmp"@]
}

fn package_cache_suffix_table() -> (r: Vec<&'static str>)
    ensures
        r@.len() == package_cache_suffixes().len(),
        forall|i: int| 0 <= i < r@.len() ==> r@[i]@ == package_cache_suffixes()[i],
{
    let mut v: Vec<&'static str> = Vec::new();
    v.push("/.npm");
    v.push("/.yarn/cache");
    v.push("/.pnpm-store");
    v.push("/.cargo/registry/cache");
    v.push("/.cargo/git/db");
    v.push("/.gradle/caches");
    v.push("/.m2/repository");
    v.push("/.gem/cache");
    v.push("/.composer/cache");
    v.push("/.nuget/packages");
    v.push("/.cache/pip");
    v.push("/.cache/go-build");
    v
}

fn ide_cache_suffix_table() -> (r: Vec<&'static str>)
    ensures
        r@.len() == ide_cache_suffixes().len(),
        forall|i: int| 0 <= i < r@.len() ==> r@[i]@ == ide_cache_suffixes()[i],
{
    let mut v: Vec<&'static str> = Vec::new();
    v.push("/.vscode/extensions");
    v.push("/.cursor/extensions");
    v.push("/.zed/extensions");
    v.push("/.local/share/JetBrains");
    v.push("/.config/Code/CachedData");
    v.push("/.config/Code/CachedExtensions");
    v
}

fn browser_cache_suffix_table() -> (r: Vec<&'static str>)
    ensures
        r@.len() == browser_cache_suffixes().len(),
        forall|i: int| 0 <= i < r@.len() ==> r@[i]@ == browser_cache_suffixes()[i],
{
    let mut v: Vec<&'static str> = Vec::new();
    v.push("/.cache/google-chrome");
    v.push("/.cache/mozilla/firefox");
    v.push("/.cache/chromium");
    v.push("/.cache/microsoft-edge");
    v.push("/.cache/BraveSoftware");
    v
}

/// `home` followed by each suffix of `table`, in order.
fn join_all(home: &str, table: &Vec<&'static str>, Ghost(suffixes): Ghost<Seq<Seq<char>>>) -> (r:
    Vec<String>)
    requires
        table@.len() == suffixes.len(),
        forall|i: int| 0 <= i < table@.len() ==> table@[i]@ == suffixes[i],
    ensures
        path_views(r@) == prefixed_views(home@, suffixes),
{
    let mut r: Vec<String> = Vec::new();
    let n = table.len();
    let mut i: usize = 0;
    while i < n
        invariant
            0 <= i <= n,
            n == table@.len(),
            n == suffixes.len(),
            forall|j: int| 0 <= j < n ==> table@[j]@ == suffixes[j],
            r@.len() == i,
            forall|j: int| 0 <= j < i ==> r@[j]@ == home@ + suffixes[j],
        decreases n - i,
    {
        let mut p = home.to_owned();
        p.append(table[i]);
        r.push(p);
        i += 1;
    }
    proof {
        assert(path_views(r@) =~= prefixed_views(home@, suffixes));
    }
    r
}

} // verus!
