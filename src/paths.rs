//! Joining and splitting of file paths, done by `std::path`.

use vstd::prelude::*;

verus! {

/// The path that `Path::join` makes of a directory and a relative name.
pub uninterp spec fn joined(base: Seq<char>, name: Seq<char>) -> Seq<char>;

/// The directory that `Path::parent` gives for a path, if any.
pub uninterp spec fn parent_of(path: Seq<char>) -> Option<Seq<char>>;

/// Relies on `std::path::Path::join`: the result depends on the two
/// strings alone. Joining two UTF-8 strings gives UTF-8, so the lossy
/// conversion loses nothing.
#[verifier::external_body]
pub(crate) fn join_path(base: &str, name: &str) -> (r: String)
    ensures
        r@ == joined(base@, name@),
{
    std::path::Path::new(base).join(name).to_string_lossy().into_owned()
}

/// Relies on `std::path::Path::parent`: the result depends on the string
/// alone, and is `None` for a root or an empty path.
#[verifier::external_body]
pub(crate) fn parent_dir(path: &str) -> (r: Option<String>)
    ensures
        match r {
            Some(d) => parent_of(path@) == Some(d@),
            None => parent_of(path@) is None,
        },
{
    match std::path::Path::new(path).parent() {
        Some(d) => Some(d.to_string_lossy().into_owned()),
        None => None,
    }
}

} // verus!
