//! Classification decisions: which names mark dev artifacts, which suffixes
//! mark temp and log files, when an item is stale or an old download, and
//! how confidence scores are computed and capped.

use vstd::prelude::*;
use vstd::seq_lib::*;
use crate::categories::CategoryPatterns;
use crate::categories::DEV_ARTIFACT_CONFIDENCE_CAP;
use crate::categories::FileCategory;
use crate::categories::OLD_DOWNLOAD_CONFIDENCE_CAP;
use crate::categories::STALE_CONFIDENCE_BONUS;
use crate::categories::dev_artifact_dir_names;
use crate::categories::log_extension_names;
use crate::categories::spec_base_confidence;
use crate::categories::temp_extension_names;
use crate::store::ItemView;
use crate::store::ScannedItem;
use crate::store::item_valid;
use crate::text::str_ends_with;
use crate::text::str_eq;

verus! {

/// Age in seconds past which an item counts as stale (90 days).
pub const STALE_THRESHOLD_SECS: u64 = 90 * 86400;

/// Age in seconds past which a downloads-directory file qualifies (30 days).
pub const OLD_DOWNLOAD_THRESHOLD_SECS: u64 = 30 * 86400;

/// The marker occurs in `name` immediately followed by a further dotted
/// extension (as `.tmp` occurs in `app.tmp.log`).
pub open spec fn occurs_before_dot(name: Seq<char>, marker: Seq<char>) -> bool {
    exists|k: int|
        0 <= k && k + marker.len() < name.len() && #[trigger] name.subrange(k, k + marker.len())
            == marker && name[k + marker.len()] == '.'
}

/// A marker suffix matches a file name when the name ends with it, or when
/// it occurs followed by a further extension — so a compound name such as
/// `app.tmp.log` matches both the temp and the log set.
pub open spec fn marker_matches(name: Seq<char>, marker: Seq<char>) -> bool {
    marker.is_suffix_of(name) || occurs_before_dot(name, marker)
}

/// Some marker of `markers` matches `name`.
pub open spec fn has_suffix_in(name: Seq<char>, markers: Seq<Seq<char>>) -> bool {
    exists|i: int| 0 <= i < markers.len() && #[trigger] marker_matches(name, markers[i])
}

/// Whether `name`'s characters from `k` on start with `marker`.
fn match_at(s: &str, marker: &str, k: usize) -> (r: bool)
    requires
        k + marker@.len() <= s@.len(),
    ensures
        r == (s@.subrange(k as int, k + marker@.len()) == marker@),
{
    let n = s.unicode_len();
    let m = marker.unicode_len();
    let mut i: usize = 0;
    while i < m
        invariant
            0 <= i <= m,
            n == s@.len(),
            m == marker@.len(),
            k + m <= n,
            forall|j: int| 0 <= j < i ==> s@[k + j] == marker@[j],
        decreases m - i,
    {
        if s.get_char(k + i) != marker.get_char(i) {
            assert(!(s@.subrange(k as int, k + marker@.len()) == marker@)) by {
                if s@.subrange(k as int, k + marker@.len()) == marker@ {
                    assert(s@.subrange(k as int, k + marker@.len())[i as int] == marker@[i as int]);
                }
            }
            return false;
        }
        i += 1;
    }
    assert(s@.subrange(k as int, k + marker@.len()) =~= marker@);
    true
}

/// Decides `occurs_before_dot(s@, marker@)`.
fn occurs_before_dot_exec(s: &str, marker: &str) -> (r: bool)
    ensures
        r == occurs_before_dot(s@, marker@),
{
    let n = s.unicode_len();
    let m = marker.unicode_len();
    if m >= n {
        return false;
    }
    let mut k: usize = 0;
    while k < n - m
        invariant
            0 <= k <= n - m,
            m < n,
            n == s@.len(),
            m == marker@.len(),
            forall|j: int|
                0 <= j < k ==> !(#[trigger] s@.subrange(j, j + marker@.len()) == marker@
                    && s@[j + marker@.len()] == '.'),
        decreases n - m - k,
    {
        if match_at(s, marker, k) && s.get_char(k + m) == '.' {
            assert(s@.subrange(k as int, k + marker@.len()) == marker@);
            return true;
        }
        k += 1;
    }
    false
}

/// Decides `marker_matches(s@, marker@)`.
pub fn marker_matches_exec(s: &str, marker: &str) -> (r: bool)
    ensures
        r == marker_matches(s@, marker@),
{
    if str_ends_with(s, marker) {
        true
    } else {
        occurs_before_dot_exec(s, marker)
    }
}

fn any_suffix_matches(name: &str, table: &Vec<&'static str>) -> (r: bool)
    ensures
        r == exists|i: int|
            0 <= i < table@.len() && #[trigger] marker_matches(name@, table@[i]@),
{
    let n = table.len();
    let mut i: usize = 0;
    while i < n
        invariant
            0 <= i <= n,
            n == table@.len(),
            forall|j: int| 0 <= j < i ==> !(#[trigger] marker_matches(name@, table@[j]@)),
        decreases n - i,
    {
        if marker_matches_exec(name, table[i]) {
            assert(marker_matches(name@, table@[i as int]@));
            return true;
        }
        i += 1;
    }
    false
}

/// Decides whether a lowercased file name carries a temp-file suffix.
pub fn is_temp_name(name_lower: &str) -> (r: bool)
    ensures
        r == has_suffix_in(name_lower@, temp_extension_names()),
{
    let table = CategoryPatterns::temp_extensions();
    let r = any_suffix_matches(name_lower, &table);
    proof {
        if r {
            let i = choose|i: int|
                0 <= i < table@.len() && #[trigger] marker_matches(name_lower@, table@[i]@);
            assert(marker_matches(name_lower@, temp_extension_names()[i]));
        }
        if has_suffix_in(name_lower@, temp_extension_names()) {
            let i = choose|i: int|
                0 <= i < temp_extension_names().len() && #[trigger] marker_matches(
                    name_lower@,
                    temp_extension_names()[i],
                );
            assert(marker_matches(name_lower@, table@[i]@));
        }
    }
    r
}

/// Decides whether a lowercased file name carries a log-file suffix.
pub fn is_log_name(name_lower: &str) -> (r: bool)
    ensures
        r == has_suffix_in(name_lower@, log_extension_names()),
{
    let table = CategoryPatterns::log_extensions();
    let r = any_suffix_matches(name_lower, &table);
    proof {
        if r {
            let i = choose|i: int|
                0 <= i < table@.len() && #[trigger] marker_matches(name_lower@, table@[i]@);
            assert(marker_matches(name_lower@, log_extension_names()[i]));
        }
        if has_suffix_in(name_lower@, log_extension_names()) {
            let i = choose|i: int|
                0 <= i < log_extension_names().len() && #[trigger] marker_matches(
                    name_lower@,
                    log_extension_names()[i],
                );
            assert(marker_matches(name_lower@, table@[i]@));
        }
    }
    r
}

/// Decides whether a directory name (matched exactly) is in the
/// dev-artifact name set.
pub fn is_dev_artifact_name(name: &str) -> (r: bool)
    ensures
        r == dev_artifact_dir_names().contains(name@),
{
    let table = CategoryPatterns::dev_artifact_dirs();
    let n = table.len();
    let mut i: usize = 0;
    while i < n
        invariant
            0 <= i <= n,
            n == table@.len(),
            n == dev_artifact_dir_names().len(),
            forall|j: int| 0 <= j < n ==> table@[j]@ == dev_artifact_dir_names()[j],
            forall|j: int| 0 <= j < i ==> dev_artifact_dir_names()[j] != name@,
        decreases n - i,
    {
        if str_eq(table[i], name) {
            assert(dev_artifact_dir_names()[i as int] == name@);
            return true;
        }
        i += 1;
    }
    assert(!dev_artifact_dir_names().contains(name@));
    false
}

/// The category of a file, from its lowercased name: a temp-suffix match
/// takes priority over a log-suffix match; anything else matches nothing.
pub open spec fn spec_classify_file_name(name_lower: Seq<char>) -> Option<FileCategory> {
    if has_suffix_in(name_lower, temp_extension_names()) {
        Some(FileCategory::TempFile)
    } else if has_suffix_in(name_lower, log_extension_names()) {
        Some(FileCategory::LogFile)
    } else {
        None
    }
}

/// Classifies a lowercased file name; the temp check precedes the log check.
pub fn classify_file_name(name_lower: &str) -> (r: Option<FileCategory>)
    ensures
        r == spec_classify_file_name(name_lower@),
{
    if is_temp_name(name_lower) {
        Some(FileCategory::TempFile)
    } else if is_log_name(name_lower) {
        Some(FileCategory::LogFile)
    } else {
        None
    }
}

/// Tie-break law: whenever the temp suffix set matches a name, the
/// classification is `TempFile` — the temp check precedes the log check,
/// so a name both sets match (such as a lowercased `app.tmp.log`) is a
/// temp file, never a log file.
pub proof fn lemma_temp_precedes_log(name_lower: Seq<char>)
    requires
        has_suffix_in(name_lower, temp_extension_names()),
    ensures
        spec_classify_file_name(name_lower) == Some(FileCategory::TempFile),
{
}

/// An item whose age (now − modified) is at least the 90-day threshold is
/// stale.
pub open spec fn spec_is_stale(now: u64, modified: u64) -> bool {
    modified + STALE_THRESHOLD_SECS <= now
}

pub fn is_stale(now: u64, modified: u64) -> (r: bool)
    ensures
        r == spec_is_stale(now, modified),
{
    now >= STALE_THRESHOLD_SECS && modified <= now - STALE_THRESHOLD_SECS
}

/// Staleness boundary law: something modified one second less than 90 days
/// ago is not stale; something modified exactly 90 days ago (or earlier)
/// is.
pub proof fn lemma_staleness_boundary(now: u64)
    requires
        now >= STALE_THRESHOLD_SECS,
    ensures
        !spec_is_stale(now, (now - STALE_THRESHOLD_SECS + 1) as u64),
        spec_is_stale(now, (now - STALE_THRESHOLD_SECS) as u64),
{
}

/// A downloads file qualifies when modified strictly earlier than
/// now − 30 days.
pub open spec fn spec_is_old_download(now: u64, modified: u64) -> bool {
    modified + OLD_DOWNLOAD_THRESHOLD_SECS < now
}

pub fn is_old_download(now: u64, modified: u64) -> (r: bool)
    ensures
        r == spec_is_old_download(now, modified),
{
    now > OLD_DOWNLOAD_THRESHOLD_SECS && modified < now - OLD_DOWNLOAD_THRESHOLD_SECS
}

/// Old-download boundary law: a file modified 30 days and one second ago
/// qualifies; one modified exactly 30 days ago (or later) does not.
pub proof fn lemma_old_download_boundary(now: u64)
    requires
        now > OLD_DOWNLOAD_THRESHOLD_SECS,
    ensures
        spec_is_old_download(now, (now - OLD_DOWNLOAD_THRESHOLD_SECS - 1) as u64),
        !spec_is_old_download(now, (now - OLD_DOWNLOAD_THRESHOLD_SECS) as u64),
{
}

/// The base weight, plus the staleness bonus when `stale`, clamped to `cap`.
pub open spec fn spec_capped_confidence(base: u8, stale: bool, cap: u8) -> u8 {
    let boosted: int = if stale {
        base + STALE_CONFIDENCE_BONUS
    } else {
        base as int
    };
    if boosted > cap {
        cap
    } else {
        boosted as u8
    }
}

pub fn capped_confidence(base: u8, stale: bool, cap: u8) -> (r: u8)
    requires
        base <= 100,
    ensures
        r == spec_capped_confidence(base, stale, cap),
{
    let boosted = if stale {
        base + STALE_CONFIDENCE_BONUS
    } else {
        base
    };
    if boosted > cap {
        cap
    } else {
        boosted
    }
}

/// The abstraction of a dev-artifact directory item.
pub open spec fn spec_dev_artifact_view(
    path: Seq<char>,
    name: Seq<char>,
    size: u64,
    modified: u64,
    now: u64,
) -> ItemView {
    ItemView {
        path,
        name,
        size,
        category: FileCategory::DevArtifact,
        confidence: spec_capped_confidence(
            spec_base_confidence(FileCategory::DevArtifact),
            spec_is_stale(now, modified),
            DEV_ARTIFACT_CONFIDENCE_CAP,
        ),
        is_dir: true,
        modified,
        accessed: modified,
        is_stale: spec_is_stale(now, modified),
        has_hash: false,
    }
}

/// Builds a dev-artifact item: base weight 80, +10 when the directory's age
/// is at least the 90-day threshold, capped at 98.
pub fn dev_artifact_item(path: String, name: String, size: u64, modified: u64, now: u64) -> (item:
    ScannedItem)
    ensures
        item@ == spec_dev_artifact_view(path@, name@, size, modified, now),
        item_valid(item),
{
    let stale = is_stale(now, modified);
    let confidence = capped_confidence(
        FileCategory::DevArtifact.base_confidence(),
        stale,
        DEV_ARTIFACT_CONFIDENCE_CAP,
    );
    ScannedItem {
        path,
        name,
        size,
        category: FileCategory::DevArtifact,
        confidence,
        is_dir: true,
        modified,
        accessed: modified,
        is_stale: stale,
        hash: None,
    }
}

/// The abstraction of a matched temp/log file item.
pub open spec fn spec_file_item_view(
    path: Seq<char>,
    name: Seq<char>,
    size: u64,
    category: FileCategory,
    modified: u64,
) -> ItemView {
    ItemView {
        path,
        name,
        size,
        category,
        confidence: spec_base_confidence(category),
        is_dir: false,
        modified,
        accessed: modified,
        is_stale: false,
        has_hash: false,
    }
}

/// Builds a matched file item (temp or log) at the category's base weight.
pub fn file_item(path: String, name: String, size: u64, category: FileCategory, modified: u64) -> (
    item: ScannedItem)
    ensures
        item@ == spec_file_item_view(path@, name@, size, category, modified),
        item_valid(item),
{
    let confidence = category.base_confidence();
    ScannedItem {
        path,
        name,
        size,
        category,
        confidence,
        is_dir: false,
        modified,
        accessed: modified,
        is_stale: false,
        hash: None,
    }
}

/// The abstraction of a whole-directory cache item.
pub open spec fn spec_cache_dir_view(
    path: Seq<char>,
    name: Seq<char>,
    size: u64,
    category: FileCategory,
    modified: u64,
) -> ItemView {
    ItemView {
        path,
        name,
        size,
        category,
        confidence: spec_base_confidence(category),
        is_dir: true,
        modified,
        accessed: modified,
        is_stale: false,
        has_hash: false,
    }
}

/// Builds a whole-directory cache item at the category's base weight.
pub fn cache_dir_item(path: String, name: String, size: u64, category: FileCategory, modified: u64)
    -> (item: ScannedItem)
    ensures
        item@ == spec_cache_dir_view(path@, name@, size, category, modified),
        item_valid(item),
{
    let confidence = category.base_confidence();
    ScannedItem {
        path,
        name,
        size,
        category,
        confidence,
        is_dir: true,
        modified,
        accessed: modified,
        is_stale: false,
        hash: None,
    }
}

/// The abstraction of an old-download file item.
pub open spec fn spec_old_download_view(
    path: Seq<char>,
    name: Seq<char>,
    size: u64,
    modified: u64,
    now: u64,
) -> ItemView {
    ItemView {
        path,
        name,
        size,
        category: FileCategory::OldDownload,
        confidence: spec_capped_confidence(
            spec_base_confidence(FileCategory::OldDownload),
            spec_is_stale(now, modified),
            OLD_DOWNLOAD_CONFIDENCE_CAP,
        ),
        is_dir: false,
        modified,
        accessed: modified,
        is_stale: spec_is_stale(now, modified),
        has_hash: false,
    }
}

/// Builds an old-download item: base weight 75, +10 when additionally older
/// than the 90-day staleness threshold, capped at 95.
pub fn old_download_item(path: String, name: String, size: u64, modified: u64, now: u64) -> (item:
    ScannedItem)
    ensures
        item@ == spec_old_download_view(path@, name@, size, modified, now),
        item_valid(item),
{
    let stale = is_stale(now, modified);
    let confidence = capped_confidence(
        FileCategory::OldDownload.base_confidence(),
        stale,
        OLD_DOWNLOAD_CONFIDENCE_CAP,
    );
    ScannedItem {
        path,
        name,
        size,
        category: FileCategory::OldDownload,
        confidence,
        is_dir: false,
        modified,
        accessed: modified,
        is_stale: stale,
        hash: None,
    }
}

} // verus!
