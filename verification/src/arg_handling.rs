//! Checking the command-line arguments that name source files.
use vstd::prelude::*;

verus! {

/// What `Path::extension` gives for a path written as this text: the part
/// of the file name after its last `.`, if any (std decides the cases of
/// leading and trailing dots).
pub uninterp spec fn path_extension(path: Seq<char>) -> Option<Seq<char>>;

/// Calls `Path::extension` on the path written as `path` and gives the
/// extension as text. Claimed: a text comes back exactly when
/// `path_extension` is `Some`, and it is that text. Which part of a file
/// name counts as its extension is not stated here.
#[verifier::external_body]
fn extension_of(path: &str) -> (r: Option<String>)
    ensures
        r is Some <==> path_extension(path@) is Some,
        r matches Some(e) ==> e@ == path_extension(path@)->0,
{
    match std::path::Path::new(path).extension() {
        Some(ext) => match ext.to_str() {
            Some(s) => Some(s.to_string()),
            None => None,
        },
        None => None,
    }
}

/// The path has the extension `expected_ext` (without its dot).
pub fn has_extension(path: &str, expected_ext: &str) -> (b: bool)
    ensures
        b == (path_extension(path@) == Some(expected_ext@)),
{
    match extension_of(path) {
        Some(ext) => crate::text::str_eq(ext.as_str(), expected_ext),
        None => false,
    }
}

} // verus!
