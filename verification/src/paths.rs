//! Paths of the file system, as texts.

use vstd::prelude::*;

verus! {

/// Whether a path lies at or below another, component by component, as
/// `Path::starts_with` of the standard library finds it.
pub uninterp spec fn path_under(path: Seq<char>, base: Seq<char>) -> bool;

/// Whether a path lies at or below another, by `Path::starts_with` of the
/// standard library. The result is a function of the two texts alone and
/// is named [`path_under`].
#[verifier::external_body]
pub(crate) fn path_starts_with(path: &str, base: &str) -> (r: bool)
    ensures
        r == path_under(path@, base@),
{
    std::path::Path::new(path).starts_with(std::path::Path::new(base))
}

/// A path put together again from its components, as `Path::components`
/// of the standard library takes it apart: without repeated separators,
/// without components that name the directory itself, and without a
/// separator at the end.
pub uninterp spec fn normalized_path(path: Seq<char>) -> Seq<char>;

/// A path put together again from its components, by `Path::components`
/// of the standard library. The result is a function of the text alone
/// and is named [`normalized_path`].
#[verifier::external_body]
pub(crate) fn normalize_path(path: &str) -> (r: String)
    ensures
        r@ == normalized_path(path@),
{
    let normalized: std::path::PathBuf = std::path::Path::new(path).components().collect();
    normalized.to_string_lossy().to_string()
}

/// A path with another added below it, as `Path::join` of the standard
/// library puts them together.
pub uninterp spec fn joined_path(base: Seq<char>, rest: Seq<char>) -> Seq<char>;

/// A path with another added below it, by `Path::join` of the standard
/// library. The result is a function of the two texts alone and is named
/// [`joined_path`].
#[verifier::external_body]
pub(crate) fn path_join(base: &str, rest: &str) -> (r: String)
    ensures
        r@ == joined_path(base@, rest@),
{
    std::path::Path::new(base).join(rest).to_string_lossy().to_string()
}

/// A path with another extension in the place of its own, as
/// `Path::with_extension` of the standard library gives it.
pub uninterp spec fn path_with_extension(path: Seq<char>, extension: Seq<char>) -> Seq<char>;

/// Whether a text holds no separator of paths, neither a slash nor a
/// backslash.
pub open spec fn no_separator(s: Seq<char>) -> bool {
    forall|i: int| 0 <= i < s.len() ==> (#[trigger] s[i]) != '/' && s[i] != '\\'
}

/// A path with another extension in the place of its own, by
/// `Path::with_extension` of the standard library, which does not take an
/// extension with a separator of paths in it. The result is a function
/// of the two texts alone and is named [`path_with_extension`].
#[verifier::external_body]
pub(crate) fn with_extension(path: &str, extension: &str) -> (r: String)
    requires
        no_separator(extension@),
    ensures
        r@ == path_with_extension(path@, extension@),
{
    std::path::Path::new(path).with_extension(extension).to_string_lossy().to_string()
}

/// A character in lower case where it is one of the letters `A` to `Z`.
pub open spec fn ascii_lower_char(c: char) -> char {
    if 'A' <= c <= 'Z' {
        ((c as int) + 32) as char
    } else {
        c
    }
}

/// A text with its letters `A` to `Z` in lower case.
pub open spec fn ascii_lower(s: Seq<char>) -> Seq<char> {
    s.map_values(|c: char| ascii_lower_char(c))
}

/// A string slice with its letters `A` to `Z` in lower case, by
/// `str::to_ascii_lowercase` of the standard library. The result is taken
/// to be [`ascii_lower`].
#[verifier::external_body]
pub(crate) fn to_ascii_lowercase(s: &str) -> (r: String)
    ensures
        r@ == ascii_lower(s@),
{
    s.to_ascii_lowercase()
}

} // verus!
