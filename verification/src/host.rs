//! Trusted wrappers around host facilities the job engine consults while it
//! decides: path probes, directory walking, temporary files, and the core
//! count. Their results depend on the machine and the disk, so the contracts
//! state only what holds of every outcome.

use vstd::prelude::*;

verus! {

/// Relies on `std::path::Path::exists`: whether the path names an existing
/// filesystem entry at the time of the call.
#[verifier::external_body]
pub(crate) fn path_exists(p: &str) -> bool {
    std::path::Path::new(p).exists()
}

/// Relies on `std::path::Path::is_file`: whether the path names a regular
/// file at the time of the call.
#[verifier::external_body]
pub(crate) fn path_is_file(p: &str) -> bool {
    std::path::Path::new(p).is_file()
}

/// What `std::path::Path::file_stem` returns: the file name without its
/// final extension, a function of the path text alone.
pub uninterp spec fn stem_of(p: Seq<char>) -> Option<Seq<char>>;

/// Relies on `std::path::Path::file_stem`, converting the stem to text.
#[verifier::external_body]
pub(crate) fn file_stem(p: &str) -> (r: Option<String>)
    ensures
        r is Some <==> stem_of(p@) is Some,
        r matches Some(s) ==> stem_of(p@) == Some(s@),
{
    std::path::Path::new(p).file_stem().map(|s| s.to_string_lossy().into_owned())
}

/// What `std::path::Path::parent` returns, as text, with the empty string
/// for a path without a parent: a function of the path text alone.
pub uninterp spec fn parent_dir_of(p: Seq<char>) -> Seq<char>;

/// Relies on `std::path::Path::parent`, converting the parent to text.
#[verifier::external_body]
pub(crate) fn parent_dir(p: &str) -> (r: String)
    ensures
        r@ == parent_dir_of(p@),
{
    match std::path::Path::new(p).parent() {
        Some(q) => q.to_string_lossy().into_owned(),
        None => String::new(),
    }
}

/// Relies on `num_cpus::get`: the host's logical core count, always at
/// least one.
#[verifier::external_body]
pub(crate) fn host_thread_count() -> (r: usize)
    ensures
        r >= 1,
{
    num_cpus::get()
}

/// Relies on `walkdir::WalkDir` with `follow_links(true)`: every entry
/// reachable from the root, each as (is-regular-file, path text), or the
/// first traversal error's description. What comes back depends on the disk.
#[verifier::external_body]
pub(crate) fn walk_entries(root: &str) -> (r: Result<Vec<(bool, String)>, String>) {
    let mut out = Vec::new();
    for entry in walkdir::WalkDir::new(root).follow_links(true) {
        match entry {
            Ok(e) => out.push((e.file_type().is_file(), e.path().to_string_lossy().into_owned())),
            Err(err) => return Err(err.to_string()),
        }
    }
    Ok(out)
}

#[verifier::external_type_specification]
#[verifier::external_body]
pub struct ExTempPath(tempfile::TempPath);

/// Relies on `tempfile::Builder::tempfile` with suffix `.wav`: a fresh,
/// uniquely named temporary file whose on-disk entry is removed when the
/// returned handle is dropped; or the creation error's description.
#[verifier::external_body]
pub(crate) fn make_temp_wav() -> (r: Result<tempfile::TempPath, String>) {
    match tempfile::Builder::new().suffix(".wav").tempfile() {
        Ok(f) => Ok(f.into_temp_path()),
        Err(e) => Err(e.to_string()),
    }
}

/// Relies on `tempfile::TempPath`'s deref to `Path` for the path text of a
/// temporary file.
#[verifier::external_body]
pub(crate) fn temp_path_str(t: &tempfile::TempPath) -> (r: String) {
    t.to_path_buf().to_string_lossy().into_owned()
}

} // verus!
