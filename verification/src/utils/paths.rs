//! Path inspection through `std::path`, on paths held as strings.
use vstd::prelude::*;

verus! {

/// What `Path::extension` returns for the path.
pub uninterp spec fn spec_path_extension(path: Seq<char>) -> Option<Seq<char>>;

/// What `Path::file_stem` returns for the path.
pub uninterp spec fn spec_path_file_stem(path: Seq<char>) -> Option<Seq<char>>;

/// What `Path::file_name` returns for the path.
pub uninterp spec fn spec_path_file_name(path: Seq<char>) -> Option<Seq<char>>;

/// What `Path::is_absolute` returns for the path.
pub uninterp spec fn spec_path_is_absolute(path: Seq<char>) -> bool;

/// The path that `Path::join` builds from a base and a second path.
pub uninterp spec fn spec_path_join(base: Seq<char>, path: Seq<char>) -> Seq<char>;

/// Index of the last `.` of a file name, or -1 when it has none.
pub open spec fn last_dot(name: Seq<char>) -> int
    decreases name.len(),
{
    if name.len() == 0 {
        -1
    } else if name.last() == '.' {
        name.len() - 1
    } else {
        last_dot(name.drop_last())
    }
}

/// The extension of a file name as `Path::extension` documents it: none
/// without an embedded `.` or when the only `.` begins the name, else the
/// part after the final `.`.
pub open spec fn name_extension(name: Seq<char>) -> Option<Seq<char>> {
    if last_dot(name) <= 0 {
        None
    } else {
        Some(name.skip(last_dot(name) + 1))
    }
}

/// The stem of a file name as `Path::file_stem` documents it: the whole name
/// without an embedded `.` or when the only `.` begins the name, else the part
/// before the final `.`.
pub open spec fn name_stem(name: Seq<char>) -> Seq<char> {
    if last_dot(name) <= 0 {
        name
    } else {
        name.take(last_dot(name))
    }
}

pub open spec fn opt_seq(o: Option<String>) -> Option<Seq<char>> {
    match o {
        Some(s) => Some(s@),
        None => None,
    }
}

/// Calls `Path::extension` on `path`.  The result is named by
/// `spec_path_extension`, a function of the path alone; as std documents, it
/// is the extension (`name_extension`) of the path's file name, none without
/// a file name.
#[verifier::external_body]
pub(crate) fn path_extension(path: &str) -> (r: Option<String>)
    ensures
        match r {
            Some(e) => spec_path_extension(path@) == Some(e@),
            None => spec_path_extension(path@) is None,
        },
        opt_seq(r) == match spec_path_file_name(path@) {
            Some(n) => name_extension(n),
            None => None,
        },
{
    std::path::Path::new(path).extension().map(|e| e.to_string_lossy().into_owned())
}

/// Calls `Path::file_stem` on `path`; the result is named by
/// `spec_path_file_stem`.  As std documents, it is the stem (`name_stem`) of
/// the path's file name, none without a file name.
#[verifier::external_body]
pub(crate) fn path_file_stem(path: &str) -> (r: Option<String>)
    ensures
        match r {
            Some(e) => spec_path_file_stem(path@) == Some(e@),
            None => spec_path_file_stem(path@) is None,
        },
        opt_seq(r) == match spec_path_file_name(path@) {
            Some(n) => Some(name_stem(n)),
            None => None,
        },
{
    std::path::Path::new(path).file_stem().map(|e| e.to_string_lossy().into_owned())
}

/// Calls `Path::file_name` on `path`; the result is named by `spec_path_file_name`.
#[verifier::external_body]
pub(crate) fn path_file_name(path: &str) -> (r: Option<String>)
    ensures
        match r {
            Some(e) => spec_path_file_name(path@) == Some(e@),
            None => spec_path_file_name(path@) is None,
        },
{
    std::path::Path::new(path).file_name().map(|e| e.to_string_lossy().into_owned())
}

/// Calls `Path::is_absolute`; the result is named by `spec_path_is_absolute`.
#[verifier::external_body]
pub(crate) fn path_is_absolute(path: &str) -> (r: bool)
    ensures
        r == spec_path_is_absolute(path@),
{
    std::path::Path::new(path).is_absolute()
}

/// Calls `Path::join`; the joined path is named by `spec_path_join`.
#[verifier::external_body]
pub(crate) fn path_join(base: &str, path: &str) -> (r: String)
    ensures
        r@ == spec_path_join(base@, path@),
{
    std::path::Path::new(base).join(path).to_string_lossy().into_owned()
}

} // verus!
