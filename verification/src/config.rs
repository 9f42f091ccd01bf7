//! Scan configuration: plain values consumed by the scanner.  Loading and
//! saving the configuration is an external collaborator's concern; this
//! module supplies the defaults.

use vstd::prelude::*;
use vstd::seq_lib::*;
use vstd::string::StringExecFns;
use crate::categories::FileCategory;
use crate::platform::download_dir_path;
use crate::platform::home_dir_path;
use crate::platform::walk_dir;
use crate::text::path_views;

verus! {

/// Scan configuration.  `scan_paths` are the roots of the project walk;
/// `exclude_patterns` and `enabled_categories` are carried for callers but
/// not consulted by the traversal strategies; the thresholds mirror the
/// table constants.
#[derive(Debug, Clone, PartialEq)]
pub struct Config {
    pub scan_paths: Vec<String>,
    pub exclude_patterns: Vec<String>,
    pub enabled_categories: Vec<FileCategory>,
    pub large_file_threshold: u64,
    pub stale_days_threshold: u64,
    pub old_download_days: u64,
    pub show_hidden: bool,
    pub follow_symlinks: bool,
    pub max_depth: u32,
    pub use_trash: bool,
    pub dry_run: bool,
}

/// The categories enabled by default, in order.
pub open spec fn default_enabled_categories() -> Seq<FileCategory> {
    seq![
        FileCategory::DevArtifact,
        FileCategory::PackageCache,
        FileCategory::IdeCache,
        FileCategory::BrowserCache,
        FileCategory::SystemCache,
        FileCategory::LogFile,
        FileCategory::TempFile,
        FileCategory::LargeFile,
        FileCategory::OldDownload,
    ]
}

/// The default exclude patterns, in order.
pub open spec fn default_exclude_views() -> Seq<Seq<char>> {
    seq![".git"@, ".svn"@, ".hg"@, "/usr"@, "/bin"@, "/sbin"@, "/etc"@, "/var/lib"@]
}

/// The development-directory candidates of `present[.. k]` that are
/// flagged, each joined to `home`, in table order.
pub open spec fn spec_picked_dev_dirs(home: Seq<char>, present: Seq<bool>, k: int) -> Seq<
    Seq<char>,
>
    decreases k,
{
    if k <= 0 {
        Seq::empty()
    } else {
        spec_picked_dev_dirs(home, present, k - 1) + if present[k - 1] {
            seq![home + dev_dir_suffixes()[k - 1]]
        } else {
            Seq::empty()
        }
    }
}

/// The default scan roots as a function of the probe results: the flagged
/// development directories, then the downloads directory when flagged, then
/// the user cache directory when flagged — and the home directory alone
/// when nothing was flagged.
pub open spec fn spec_default_scan_paths(
    home: Seq<char>,
    downloads: Seq<char>,
    present: Seq<bool>,
    downloads_present: bool,
    cache_present: bool,
) -> Seq<Seq<char>> {
    let picked = spec_picked_dev_dirs(home, present, 6) + (if downloads_present {
        seq![downloads]
    } else {
        Seq::empty()
    }) + (if cache_present {
        seq![home + "/.cache"@]
    } else {
        Seq::empty()
    });
    if picked.len() == 0 {
        seq![home]
    } else {
        picked
    }
}

/// Probes whether a path exists; the answer depends on what is on disk.
fn path_exists(p: &str) -> bool {
    let entries = walk_dir(p, 0, false);
    entries.len() > 0
}

impl Config {
    /// The selection behind the default scan roots, from plain probe
    /// results: exactly the flagged candidates in order, with the home
    /// directory as fallback when none is flagged.
    pub fn default_scan_paths_from(
        home: &str,
        downloads: &str,
        present: &Vec<bool>,
        downloads_present: bool,
        cache_present: bool,
    ) -> (r: Vec<String>)
        requires
            present@.len() == 6,
        ensures
            path_views(r@) == spec_default_scan_paths(
                home@,
                downloads@,
                present@,
                downloads_present,
                cache_present,
            ),
    {
        let mut r: Vec<String> = Vec::new();
        let names = dev_dir_name_table();
        let mut i: usize = 0;
        while i < 6
            invariant
                0 <= i <= 6,
                present@.len() == 6,
                names@.len() == 6,
                names@.len() == dev_dir_suffixes().len(),
                forall|j: int| 0 <= j < 6 ==> names@[j]@ == dev_dir_suffixes()[j],
                path_views(r@) == spec_picked_dev_dirs(home@, present@, i as int),
            decreases 6 - i,
        {
            if present[i] {
                let mut p = home.to_owned();
                p.append(names[i]);
                r.push(p);
            }
            proof {
                assert(path_views(r@) =~= spec_picked_dev_dirs(home@, present@, i + 1));
            }
            i += 1;
        }
        if downloads_present {
            r.push(downloads.to_owned());
        }
        if cache_present {
            let mut cache = home.to_owned();
            cache.append("/.cache");
            r.push(cache);
        }
        if r.len() == 0 {
            r.push(home.to_owned());
            proof {
                assert(path_views(r@) =~= spec_default_scan_paths(
                    home@,
                    downloads@,
                    present@,
                    downloads_present,
                    cache_present,
                ));
            }
            return r;
        }
        proof {
            assert(path_views(r@) =~= spec_default_scan_paths(
                home@,
                downloads@,
                present@,
                downloads_present,
                cache_present,
            ));
        }
        r
    }

    /// The default scan roots: each candidate directory that exists, with
    /// the home directory itself as a fallback when none does.  The
    /// selection from the probe results is pinned by
    /// `spec_default_scan_paths`; an empty result means no home directory
    /// was known.
    pub fn default_scan_paths() -> (r: Vec<String>)
        ensures
            r@.len() == 0 || exists|
                home: Seq<char>,
                downloads: Seq<char>,
                present: Seq<bool>,
                downloads_present: bool,
                cache_present: bool,
            |
                #![trigger spec_default_scan_paths(home, downloads, present, downloads_present, cache_present)]
                present.len() == 6 && path_views(r@) == spec_default_scan_paths(
                    home,
                    downloads,
                    present,
                    downloads_present,
                    cache_present,
                ),
    {
        let home = match home_dir_path() {
            None => {
                let r: Vec<String> = Vec::new();
                return r;
            },
            Some(h) => h,
        };
        let downloads = match download_dir_path() {
            None => String::new(),
            Some(d) => d,
        };
        let names = dev_dir_name_table();
        let mut present: Vec<bool> = Vec::new();
        let mut i: usize = 0;
        while i < 6
            invariant
                0 <= i <= 6,
                names@.len() == 6,
                present@.len() == i,
            decreases 6 - i,
        {
            let mut p = home.clone();
            p.append(names[i]);
            present.push(path_exists(p.as_str()));
            i += 1;
        }
        let downloads_present = path_exists(downloads.as_str());
        let mut cache = home.clone();
        cache.append("/.cache");
        let cache_present = path_exists(cache.as_str());
        let r = Self::default_scan_paths_from(
            home.as_str(),
            downloads.as_str(),
            &present,
            downloads_present,
            cache_present,
        );
        proof {
            assert(present@.len() == 6 && path_views(r@) == spec_default_scan_paths(
                home@,
                downloads@,
                present@,
                downloads_present,
                cache_present,
            ));
        }
        r
    }

    /// The default exclude patterns.
    pub fn default_excludes() -> (r: Vec<String>)
        ensures
            path_views(r@) == default_exclude_views(),
    {
        let mut r: Vec<String> = Vec::new();
        r.push(String::from_str(".git"));
        r.push(String::from_str(".svn"));
        r.push(String::from_str(".hg"));
        r.push(String::from_str("/usr"));
        r.push(String::from_str("/bin"));
        r.push(String::from_str("/sbin"));
        r.push(String::from_str("/etc"));
        r.push(String::from_str("/var/lib"));
        proof {
            assert(path_views(r@) =~= default_exclude_views());
        }
        r
    }
}

/// The common development directory names probed under the home directory.
pub open spec fn dev_dir_suffixes() -> Seq<Seq<char>> {
    seq![
        "/Projects"@,
        "/Developer"@,
        "/Code"@,
        "/dev"@,
        "/repos"@,
        "/workspace"@,
    ]
}

fn dev_dir_name_table() -> (r: Vec<&'static str>)
    ensures
        r@.len() == dev_dir_suffixes().len(),
        forall|i: int| 0 <= i < r@.len() ==> r@[i]@ == dev_dir_suffixes()[i],
{
    let mut v: Vec<&'static str> = Vec::new();
    v.push("/Projects");
    v.push("/Developer");
    v.push("/Code");
    v.push("/dev");
    v.push("/repos");
    v.push("/workspace");
    v
}

impl Default for Config {
    /// The default configuration: default scan roots and excludes, the nine
    /// default categories enabled, 100MiB large-file threshold, 90-day
    /// staleness, 30-day download age, hidden entries shown, symlinks not
    /// followed, depth 20, trash deletion, no dry run.
    fn default() -> (c: Config)
        ensures
            c.scan_paths@.len() == 0 || exists|
                home: Seq<char>,
                downloads: Seq<char>,
                present: Seq<bool>,
                downloads_present: bool,
                cache_present: bool,
            |
                #![trigger spec_default_scan_paths(home, downloads, present, downloads_present, cache_present)]
                present.len() == 6 && path_views(c.scan_paths@) == spec_default_scan_paths(
                    home,
                    downloads,
                    present,
                    downloads_present,
                    cache_present,
                ),
            path_views(c.exclude_patterns@) == default_exclude_views(),
            c.enabled_categories@ == default_enabled_categories(),
            c.large_file_threshold == 100 * 1024 * 1024,
            c.stale_days_threshold == 90,
            c.old_download_days == 30,
            c.show_hidden == true,
            c.follow_symlinks == false,
            c.max_depth == 20,
            c.use_trash == true,
            c.dry_run == false,
    {
        let mut enabled: Vec<FileCategory> = Vec::new();
        enabled.push(FileCategory::DevArtifact);
        enabled.push(FileCategory::PackageCache);
        enabled.push(FileCategory::IdeCache);
        enabled.push(FileCategory::BrowserCache);
        enabled.push(FileCategory::SystemCache);
        enabled.push(FileCategory::LogFile);
        enabled.push(FileCategory::TempFile);
        enabled.push(FileCategory::LargeFile);
        enabled.push(FileCategory::OldDownload);
        proof {
            assert(enabled@ =~= default_enabled_categories());
        }
        Config {
            scan_paths: Config::default_scan_paths(),
            exclude_patterns: Config::default_excludes(),
            enabled_categories: enabled,
            large_file_threshold: 100 * 1024 * 1024,
            stale_days_threshold: 90,
            old_download_days: 30,
            show_hidden: true,
            follow_symlinks: false,
            max_depth: 20,
            use_trash: true,
            dry_run: false,
        }
    }
}

} // verus!
