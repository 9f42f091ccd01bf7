//! The trusted boundary: filesystem walks, clock reads, platform directory
//! lookups, Unicode lowercasing and human-readable size formatting.  Every
//! function here either carries no promise (its result depends on the world
//! outside) or a promise taken from the relied-on crate's documentation.

use vstd::prelude::*;
use crate::dominance::strictly_descends;

verus! {

/// One filesystem entry as reported by a directory walk, as plain values.
#[derive(Debug, Clone, PartialEq)]
pub struct FsEntry {
    /// Full path: the walk root joined with the entry's components.
    pub path: String,
    /// Final path component (the file or directory name).
    pub name: String,
    /// Depth below the walk root; the root itself has depth 0.
    pub depth: usize,
    pub is_dir: bool,
    pub is_file: bool,
    /// Size in bytes from the entry's metadata; 0 where it was unreadable.
    pub size: u64,
    /// Last-modified time, seconds since the Unix epoch; 0 where unavailable.
    pub modified: u64,
}

impl FsEntry {
    /// An equal copy, built field by field.
    pub fn duplicate(&self) -> (r: FsEntry)
        ensures
            r == *self,
    {
        FsEntry {
            path: self.path.clone(),
            name: self.name.clone(),
            depth: self.depth,
            is_dir: self.is_dir,
            is_file: self.is_file,
            size: self.size,
            modified: self.modified,
        }
    }
}

/// Entries listed in an order where every directory comes before everything
/// that lies beneath it.
pub open spec fn parents_before_children(entries: Seq<FsEntry>) -> bool {
    forall|i: int, j: int|
        0 <= i < entries.len() && 0 <= j < entries.len()
            && strictly_descends(entries[i].path@, entries[j].path@) ==> j < i
}

#[verifier::external_type_specification]
#[verifier::external_body]
pub struct ExDirEntry(walkdir::DirEntry);

/// Relies on walkdir's `DirEntry` accessors (`path`, `file_name`, `depth`,
/// `file_type`, `metadata`) to fill one `FsEntry` with plain values; the
/// result depends on what is on disk, so nothing is promised of it.
#[verifier::external_body]
fn fs_entry_of(e: &walkdir::DirEntry) -> FsEntry {
    let m = e.metadata().ok();
    FsEntry {
        path: e.path().to_string_lossy().to_string(),
        name: e.file_name().to_string_lossy().to_string(),
        depth: e.depth(),
        is_dir: e.file_type().is_dir(),
        is_file: e.file_type().is_file(),
        size: m.as_ref().map(|md| md.len()).unwrap_or(0),
        modified: m.and_then(|md| md.modified().ok()).and_then(|t| t.duration_since(std::time::UNIX_EPOCH).ok()).map(|d| d.as_secs()).unwrap_or(0),
    }
}

/// Relies on `walkdir::WalkDir`: a depth-first walk of `root` that yields
/// each directory before its contents, yields the root itself first and as
/// the only entry of depth 0, and yields no entry deeper than `max_depth`.
/// Which entries come back depends on what is on disk.
#[verifier::external_body]
pub(crate) fn walk_dir(root: &str, max_depth: usize, follow_links: bool) -> (r: Vec<FsEntry>)
    ensures
        parents_before_children(r@),
        forall|i: int| 0 <= i < r@.len() ==> r@[i].depth <= max_depth,
        forall|i: int| 0 <= i < r@.len() && r@[i].depth == 0 ==> i == 0,
        r@.len() > 0 ==> r@[0].depth == 0 && r@[0].path@ == root@,
{
    walkdir::WalkDir::new(root)
        .max_depth(max_depth)
        .follow_links(follow_links)
        .into_iter()
        .filter_map(|e| e.ok())
        .map(|e| fs_entry_of(&e))
        .collect()
}

/// The result of Unicode-lowercasing a character sequence; a function of the
/// characters alone.
pub uninterp spec fn lower_of(s: Seq<char>) -> Seq<char>;

/// Relies on `str::to_lowercase`: the result depends on the characters alone,
/// and an empty string stays empty.
#[verifier::external_body]
pub(crate) fn to_lower(s: &str) -> (r: String)
    ensures
        r@ == lower_of(s@),
        s@.len() == 0 ==> r@.len() == 0,
{
    s.to_lowercase()
}

/// The human-readable rendering of a byte count; a function of the count
/// alone.
pub uninterp spec fn size_label(n: u64) -> Seq<char>;

/// Relies on `bytesize::ByteSize`'s display implementation: a pure rendering
/// of the byte count.
#[verifier::external_body]
pub(crate) fn format_size(n: u64) -> (r: String)
    ensures
        r@ == size_label(n),
{
    bytesize::ByteSize(n).to_string()
}

/// The human-readable rendering of a byte count, as shown to the user.
pub fn size_text(size: u64) -> (r: String)
    ensures
        r@ == size_label(size),
{
    format_size(size)
}

/// Relies on `chrono::Utc::now`: the current time in whole seconds since the
/// Unix epoch; nothing can be promised of a clock reading.
#[verifier::external_body]
pub(crate) fn now_secs() -> u64 {
    u64::try_from(chrono::Utc::now().timestamp()).unwrap_or(0)
}

/// Relies on `chrono::Utc::now`: the current time in milliseconds since the
/// Unix epoch; nothing can be promised of a clock reading.
#[verifier::external_body]
pub(crate) fn now_millis() -> u64 {
    u64::try_from(chrono::Utc::now().timestamp_millis()).unwrap_or(0)
}

/// Relies on `dirs::home_dir`: the platform home directory, if any; the
/// result depends on the environment.
#[verifier::external_body]
pub(crate) fn home_dir_path() -> Option<String> {
    dirs::home_dir().map(|p| p.to_string_lossy().to_string())
}

/// Relies on `dirs::download_dir`: the platform downloads directory, if any;
/// the result depends on the environment.
#[verifier::external_body]
pub(crate) fn download_dir_path() -> Option<String> {
    dirs::download_dir().map(|p| p.to_string_lossy().to_string())
}

} // verus!
