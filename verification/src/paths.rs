//! Relative paths between entries and the file stems that entries are
//! addressed by.
//!
//! Paths are read by `std::path` and `pathdiff`; what they return is named
//! here and not proved.

use std::path::Path;
use vstd::prelude::*;

verus! {

/// The relative path that `pathdiff::diff_paths(path, base)` returns for two
/// paths given as text, or `None` where it finds none.
pub uninterp spec fn path_difference(path: Seq<char>, base: Seq<char>) -> Option<Seq<char>>;

/// What is left of `path` once `std::path::Path::strip_prefix` has taken the
/// leading components `prefix` away, or `None` where `path` does not start
/// with them.
pub uninterp spec fn path_without_prefix(path: Seq<char>, prefix: Seq<char>) -> Option<Seq<char>>;

/// The path without its last component, as `std::path::Path::parent` gives
/// it: the directory that holds the file at `path`. `None` where the path
/// ends in a root or is empty.
pub uninterp spec fn path_parent(path: Seq<char>) -> Option<Seq<char>>;

/// The stem that `std::path::Path::file_stem` finds in `path`: its last
/// component without the extension, or `None` where the path names no file.
pub uninterp spec fn path_file_stem(path: Seq<char>) -> Option<Seq<char>>;

/// The path component that stands for the parent directory.
pub open spec fn parent_dir() -> Seq<char> {
    seq!['.', '.']
}

/// The relative path with one leading parent-directory component taken away,
/// or the path itself where it has none.
pub open spec fn without_leading_parent(relative: Seq<char>) -> Seq<char> {
    match path_without_prefix(relative, parent_dir()) {
        Some(rest) => rest,
        None => relative,
    }
}

/// The directory that holds the entry at `source`; the path itself where it
/// has no parent.
pub open spec fn directory_of(source: Seq<char>) -> Seq<char> {
    match path_parent(source) {
        Some(directory) => directory,
        None => source,
    }
}

/// The path that leads from the directory of `source` to `target`, one
/// leading level of ascent elided; `None` where no relative path leads from
/// the one to the other.
pub open spec fn flattened_difference(source: Seq<char>, target: Seq<char>) -> Option<Seq<char>> {
    match path_difference(target, directory_of(source)) {
        Some(relative) => Some(without_leading_parent(relative)),
        None => None,
    }
}

/// The stem of the file that `target` is reached by from `source`; `None`
/// where there is no relative path or it names no file.
pub open spec fn relative_stem(source: Seq<char>, target: Seq<char>) -> Option<Seq<char>> {
    match flattened_difference(source, target) {
        Some(relative) => path_file_stem(relative),
        None => None,
    }
}

/// Calls `pathdiff::diff_paths`. The contract only names the result: the
/// relative path, or `None` where `diff_paths` returns none.
#[verifier::external_body]
pub(crate) fn diff_paths(path: &str, base: &str) -> (relative: Option<String>)
    ensures
        relative.deep_view() == path_difference(path@, base@),
{
    pathdiff::diff_paths(Path::new(path), Path::new(base)).map(|p| p.to_string_lossy().into_owned())
}

/// Calls `std::path::Path::parent`. The contract only names the result: the
/// path without its last component, or `None` where `parent` gives none.
#[verifier::external_body]
pub(crate) fn parent(path: &str) -> (directory: Option<String>)
    ensures
        directory.deep_view() == path_parent(path@),
{
    Path::new(path).parent().map(|p| p.to_string_lossy().into_owned())
}

/// Calls `std::path::Path::strip_prefix`. The contract only names the
/// result: the remaining path, or `None` where `strip_prefix` fails.
#[verifier::external_body]
pub(crate) fn strip_prefix(path: &str, prefix: &str) -> (rest: Option<String>)
    ensures
        rest.deep_view() == path_without_prefix(path@, prefix@),
{
    Path::new(path).strip_prefix(prefix).ok().map(|p| p.to_string_lossy().into_owned())
}

/// Calls `std::path::Path::file_stem`. The contract only names the result:
/// the stem, or `None` where `file_stem` finds none.
#[verifier::external_body]
pub(crate) fn file_stem(path: &str) -> (stem: Option<String>)
    ensures
        stem.deep_view() == path_file_stem(path@),
{
    Path::new(path).file_stem().map(|s| s.to_string_lossy().into_owned())
}

/// Computes the relative path from the directory that holds the entry at
/// `source` to `target`, and elides one leading `..`, since entries are
/// served from one flattened level.
pub fn relative_path(source: &str, target: &str) -> (relative: Option<String>)
    ensures
        relative.deep_view() == flattened_difference(source@, target@),
{
    let found = match parent(source) {
        Some(directory) => diff_paths(target, directory.as_str()),
        None => diff_paths(target, source),
    };
    match found {
        Some(relative) => {
            proof {
                reveal_strlit("..");
                assert(".."@ =~= parent_dir());
            }
            match strip_prefix(relative.as_str(), "..") {
                Some(rest) => Some(rest),
                None => Some(relative),
            }
        },
        None => None,
    }
}

} // verus!
