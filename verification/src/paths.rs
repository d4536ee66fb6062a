//! Paths handled as strings, with `std::path` doing the parsing.
//!
//! The library keeps paths as `String`s. What `std::path::Path` computes from
//! a path (its last component, its stem, its components, a prefix stripped, a
//! join) depends on the path text alone; each result is given a name here.

use vstd::prelude::*;

verus! {

/// The option of views of an optional string.
pub open spec fn opt_view(o: Option<String>) -> Option<Seq<char>> {
    match o {
        Some(s) => Some(s@),
        None => None,
    }
}

/// What `Path::file_name` returns for a path with these characters.
pub uninterp spec fn file_name_of(p: Seq<char>) -> Option<Seq<char>>;

/// What `Path::file_stem` returns for a path with these characters.
pub uninterp spec fn file_stem_of(p: Seq<char>) -> Option<Seq<char>>;

/// What `Path::strip_prefix` returns for a path and a base.
pub uninterp spec fn strip_prefix_of(p: Seq<char>, base: Seq<char>) -> Option<Seq<char>>;

/// What `Path::components` yields, each component as its string.
pub uninterp spec fn components_of(p: Seq<char>) -> Seq<Seq<char>>;

/// What `Path::extension` returns for a path with these characters.
pub uninterp spec fn extension_of(p: Seq<char>) -> Option<Seq<char>>;

/// What `Path::join` returns for a path and a piece.
pub uninterp spec fn join_of(p: Seq<char>, piece: Seq<char>) -> Seq<char>;

/// Calls `Path::file_name`; the result is named `file_name_of`.
#[verifier::external_body]
pub(crate) fn path_file_name(p: &str) -> (r: Option<String>)
    ensures
        opt_view(r) == file_name_of(p@),
{
    std::path::Path::new(p).file_name().map(|n| n.to_string_lossy().into_owned())
}

/// Calls `Path::file_stem`; the result is named `file_stem_of`.
#[verifier::external_body]
pub(crate) fn path_file_stem(p: &str) -> (r: Option<String>)
    ensures
        opt_view(r) == file_stem_of(p@),
{
    std::path::Path::new(p).file_stem().map(|n| n.to_string_lossy().into_owned())
}

/// Calls `Path::strip_prefix`; the result is named `strip_prefix_of`.
#[verifier::external_body]
pub(crate) fn path_strip_prefix(p: &str, base: &str) -> (r: Option<String>)
    ensures
        opt_view(r) == strip_prefix_of(p@, base@),
{
    std::path::Path::new(p).strip_prefix(base).ok().map(|r| r.to_string_lossy().into_owned())
}

/// Calls `Path::components`; each component is given as its string, and the
/// list is named `components_of`.
#[verifier::external_body]
pub(crate) fn path_components(p: &str) -> (r: Vec<String>)
    ensures
        r@.map_values(|s: String| s@) == components_of(p@),
{
    std::path::Path::new(p).components().map(|c| c.as_os_str().to_string_lossy().into_owned()).collect()
}

/// Calls `Path::join`; the result is named `join_of`.
#[verifier::external_body]
pub(crate) fn path_join(p: &str, piece: &str) -> (r: String)
    ensures
        r@ == join_of(p@, piece@),
{
    std::path::Path::new(p).join(piece).to_string_lossy().into_owned()
}

/// Calls `Path::extension`; the result is named `extension_of`.
#[verifier::external_body]
pub(crate) fn path_extension(p: &str) -> (r: Option<String>)
    ensures
        opt_view(r) == extension_of(p@),
{
    std::path::Path::new(p).extension().map(|e| e.to_string_lossy().into_owned())
}

} // verus!
