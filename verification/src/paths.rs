//! Filesystem paths. The library carries `Path` and `PathBuf` as opaque
//! values; each call into `std::path` goes through one function below.

use vstd::prelude::*;
use std::path::{Path, PathBuf};

verus! {

#[verifier::external_type_specification]
#[verifier::external_body]
pub struct ExPath(Path);

/// The `&Path` that a `PathBuf` dereferences to.
pub uninterp spec fn path_of_buf(p: &PathBuf) -> &Path;

/// `PathBuf` as a `&Path` (deref coercion): the same path, borrowed; named
/// `path_of_buf`.
pub assume_specification[ <PathBuf as std::ops::Deref>::deref ](p: &PathBuf) -> (r: &Path)
    ensures
        r == path_of_buf(p),
;

/// What `Path::new(path).file_name()` yields for a path written as `path`,
/// as text.
pub uninterp spec fn path_file_name(path: Seq<char>) -> Option<Seq<char>>;

/// `Path::file_name` of the path written as `path`. The final component of a
/// path made from a `&str` is valid UTF-8, so `to_str` keeps it whole.
#[verifier::external_body]
pub(crate) fn file_name_of(path: &str) -> (r: Option<String>)
    ensures
        r matches Some(n) ==> path_file_name(path@) == Some(n@),
        r is None ==> path_file_name(path@) is None,
{
    Some(Path::new(path).file_name()?.to_str()?.to_owned())
}

/// What `path.extension()` yields, as text when it is valid UTF-8.
pub uninterp spec fn path_extension(path: &Path) -> Option<Seq<char>>;

/// `Path::extension`, as text when it is valid UTF-8; named `path_extension`.
#[verifier::external_body]
pub(crate) fn extension_of(path: &Path) -> (r: Option<String>)
    ensures
        r matches Some(e) ==> path_extension(path) == Some(e@),
        r is None ==> path_extension(path) is None,
{
    Some(path.extension()?.to_str()?.to_owned())
}

/// What `path.file_name()` yields, as text when it is valid UTF-8.
pub uninterp spec fn path_file_name_text(path: &Path) -> Option<Seq<char>>;

/// `Path::file_name`, as text when it is valid UTF-8; named
/// `path_file_name_text`.
#[verifier::external_body]
pub(crate) fn file_name_text(path: &Path) -> (r: Option<String>)
    ensures
        r matches Some(n) ==> path_file_name_text(path) == Some(n@),
        r is None ==> path_file_name_text(path) is None,
{
    Some(path.file_name()?.to_str()?.to_owned())
}

/// What `path.file_stem()` yields, as text when it is valid UTF-8.
pub uninterp spec fn path_file_stem(path: &Path) -> Option<Seq<char>>;

/// `Path::file_stem`, as text when it is valid UTF-8; named `path_file_stem`.
#[verifier::external_body]
pub(crate) fn file_stem_of(path: &Path) -> (r: Option<String>)
    ensures
        r matches Some(s) ==> path_file_stem(path) == Some(s@),
        r is None ==> path_file_stem(path) is None,
{
    Some(path.file_stem()?.to_str()?.to_owned())
}

/// What `path.parent()` yields.
pub uninterp spec fn path_parent(path: &Path) -> Option<&Path>;

/// `Path::parent`; named `path_parent`.
#[verifier::external_body]
pub(crate) fn parent_of(path: &Path) -> (r: Option<&Path>)
    ensures
        r == path_parent(path),
{
    path.parent()
}

/// The path that `Path::new` makes of a text.
pub uninterp spec fn path_from(text: Seq<char>) -> &'static Path;

/// `Path::new`; named `path_from`.
#[verifier::external_body]
pub(crate) fn path_of_text(text: &str) -> (r: &Path)
    ensures
        r == path_from(text@),
{
    Path::new(text)
}

/// What `base.join(relative)` yields.
pub uninterp spec fn path_joined(base: &Path, relative: Seq<char>) -> PathBuf;

/// `Path::join` with a text; named `path_joined`.
#[verifier::external_body]
pub(crate) fn join_path(base: &Path, relative: &str) -> (r: PathBuf)
    ensures
        r == path_joined(base, relative@),
{
    base.join(relative)
}

/// `Path::exists`: asks the filesystem, so nothing is claimed of the answer.
#[verifier::external_body]
pub(crate) fn path_exists(path: &Path) -> bool {
    path.exists()
}

/// `Path::canonicalize`, its error dropped: asks the filesystem, so nothing is
/// claimed of the result.
#[verifier::external_body]
pub(crate) fn canonical_path(path: &Path) -> Option<PathBuf> {
    path.canonicalize().ok()
}

/// What `path.to_path_buf()` yields.
pub uninterp spec fn path_owned(path: &Path) -> PathBuf;

/// `Path::to_path_buf`; named `path_owned`.
#[verifier::external_body]
pub(crate) fn owned_path(path: &Path) -> (r: PathBuf)
    ensures
        r == path_owned(path),
{
    path.to_path_buf()
}

/// What `path.strip_prefix(prefix)` yields, as an owned path.
pub uninterp spec fn path_stripped(path: &Path, prefix: &Path) -> Option<PathBuf>;

/// `Path::strip_prefix`, as an owned path, its error dropped; named
/// `path_stripped`.
#[verifier::external_body]
pub(crate) fn strip_path_prefix(path: &Path, prefix: &Path) -> (r: Option<PathBuf>)
    ensures
        r == path_stripped(path, prefix),
{
    Some(path.strip_prefix(prefix).ok()?.to_path_buf())
}

} // verus!
