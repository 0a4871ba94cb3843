//! The few `std::path` operations the library relies on, as trusted
//! wrappers whose results are named by the spec functions below. Their
//! behaviour (component parsing, separators) is std's own, for the target
//! the crate is built for: the names stand for that target's path rules
//! (the app ships for Windows, the tests also run on Unix).

use vstd::prelude::*;

verus! {

/// What `Path::file_stem` gives for a path: the file name without its
/// last extension, if the path has a file name.
pub uninterp spec fn spec_file_stem(p: Seq<char>) -> Option<Seq<char>>;

/// What `Path::file_name` gives for a path: its final component, if it
/// is a normal one.
pub uninterp spec fn spec_file_name(p: Seq<char>) -> Option<Seq<char>>;

/// What `Path::extension` gives for a path.
pub uninterp spec fn spec_extension(p: Seq<char>) -> Option<Seq<char>>;

/// What `Path::parent` gives for a path.
pub uninterp spec fn spec_parent(p: Seq<char>) -> Option<Seq<char>>;

/// What `Path::join` gives for a base path and a further path.
pub uninterp spec fn spec_join(base: Seq<char>, rest: Seq<char>) -> Seq<char>;

/// What `Path::with_file_name` gives for a path and a new file name.
pub uninterp spec fn spec_with_file_name(p: Seq<char>, name: Seq<char>) -> Seq<char>;

/// `Path::file_stem`, named by `spec_file_stem`.
#[verifier::external_body]
pub(crate) fn file_stem(p: &str) -> (r: Option<String>)
    ensures
        r.deep_view() == spec_file_stem(p@),
{
    std::path::Path::new(p).file_stem().map(|s| s.to_string_lossy().to_string())
}

/// `Path::file_name`, named by `spec_file_name`.
#[verifier::external_body]
pub(crate) fn file_name(p: &str) -> (r: Option<String>)
    ensures
        r.deep_view() == spec_file_name(p@),
{
    std::path::Path::new(p).file_name().map(|s| s.to_string_lossy().to_string())
}

/// `Path::extension`, named by `spec_extension`.
#[verifier::external_body]
pub(crate) fn extension(p: &str) -> (r: Option<String>)
    ensures
        r.deep_view() == spec_extension(p@),
{
    std::path::Path::new(p).extension().map(|s| s.to_string_lossy().to_string())
}

/// `Path::parent`, named by `spec_parent`.
#[verifier::external_body]
pub(crate) fn parent(p: &str) -> (r: Option<String>)
    ensures
        r.deep_view() == spec_parent(p@),
{
    std::path::Path::new(p).parent().map(|s| s.to_string_lossy().to_string())
}

/// `Path::join`, named by `spec_join`.
#[verifier::external_body]
pub(crate) fn join(base: &str, rest: &str) -> (r: String)
    ensures
        r@ == spec_join(base@, rest@),
{
    std::path::Path::new(base).join(rest).to_string_lossy().to_string()
}

/// `Path::with_file_name`, named by `spec_with_file_name`.
#[verifier::external_body]
pub(crate) fn with_file_name(p: &str, name: &str) -> (r: String)
    ensures
        r@ == spec_with_file_name(p@, name@),
{
    std::path::Path::new(p).with_file_name(name).to_string_lossy().to_string()
}

} // verus!
