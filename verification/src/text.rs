//! What the library needs from the standard string routines that have no
//! specification of their own: equality of string slices, lowercasing,
//! substring search, and the last component and extension of a path.

use vstd::prelude::*;
use vstd::string::StringSliceAdditionalSpecFns;

verus! {

/// The lowercase form of `s`, as `str::to_lowercase` computes it (the Unicode
/// mapping, which may change the number of characters).
pub uninterp spec fn lowercased(s: Seq<char>) -> Seq<char>;

/// The extension of the path `path`, as `std::path::Path::extension` gives it:
/// the part of the last component behind its last dot, if there is one.
pub uninterp spec fn extension_of_path(path: Seq<char>) -> Option<Seq<char>>;

/// The last component of the path `path`, as `std::path::Path::file_name`
/// gives it.
pub uninterp spec fn file_name_of_path(path: Seq<char>) -> Option<Seq<char>>;

/// The components of the path `path`, as `std::path::Path::components` gives
/// them, each as text.
pub uninterp spec fn components_of_path(path: Seq<char>) -> Seq<Seq<char>>;

/// `pattern` occurs in `s` as a run of consecutive characters.
pub open spec fn has_substring(s: Seq<char>, pattern: Seq<char>) -> bool {
    exists|i: int|
        0 <= i && i + pattern.len() <= s.len() && #[trigger] s.subrange(
            i,
            i + pattern.len(),
        ) == pattern
}

/// Tells whether two string slices hold the same characters, by comparing
/// their bytes: the encoding of a text determines the text.
pub(crate) fn str_eq(a: &str, b: &str) -> (same: bool)
    ensures
        same == (a@ == b@),
{
    let left = a.as_bytes();
    let right = b.as_bytes();
    proof {
        vstd::utf8::encode_utf8_decode_utf8(a@);
        vstd::utf8::encode_utf8_decode_utf8(b@);
    }
    if left.len() != right.len() {
        return false;
    }
    let mut at: usize = 0;
    while at < left.len()
        invariant
            at <= left@.len(),
            left@ == a.spec_bytes(),
            right@ == b.spec_bytes(),
            left@.len() == right@.len(),
            forall|i: int| 0 <= i < at ==> left@[i] == right@[i],
        decreases left@.len() - at,
    {
        if left[at] != right[at] {
            return false;
        }
        at = at + 1;
    }
    assert(left@ =~= right@);
    true
}

/// Trusted: `str::to_lowercase` returns the lowercase form of its argument,
/// which depends on the characters of the argument alone.
#[verifier::external_body]
pub(crate) fn to_lowercase(s: &str) -> (lower: String)
    ensures
        lower@ == lowercased(s@),
{
    s.to_lowercase()
}

/// Trusted: `str::contains` with a string pattern tells whether the pattern
/// matches a sub-slice of the string.
#[verifier::external_body]
pub(crate) fn str_contains(s: &str, pattern: &str) -> (found: bool)
    ensures
        found == has_substring(s@, pattern@),
{
    s.contains(pattern)
}

/// Trusted: `Path::extension` of a path given as text; the result depends on
/// the text alone.
#[verifier::external_body]
pub(crate) fn path_extension(path: &str) -> (extension: Option<String>)
    ensures
        extension matches Some(e) ==> extension_of_path(path@) == Some(e@),
        extension is None ==> extension_of_path(path@) is None,
{
    std::path::Path::new(path).extension().and_then(|e| e.to_str()).map(|e| e.to_string())
}

/// Trusted: `Path::file_name` of a path given as text; the result depends on
/// the text alone.
#[verifier::external_body]
pub(crate) fn path_file_name(path: &str) -> (name: Option<String>)
    ensures
        name matches Some(n) ==> file_name_of_path(path@) == Some(n@),
        name is None ==> file_name_of_path(path@) is None,
{
    std::path::Path::new(path).file_name().and_then(|n| n.to_str()).map(|n| n.to_string())
}

/// Trusted: `Path::components` of a path given as text, each component as a
/// string of its own; the result depends on the text alone.
#[verifier::external_body]
pub(crate) fn path_components(path: &str) -> (components: Vec<String>)
    ensures
        components@.len() == components_of_path(path@).len(),
        forall|i: int|
            0 <= i < components@.len() ==> (#[trigger] components@[i])@ == components_of_path(
                path@,
            )[i],
{
    std::path::Path::new(path).components().map(|c| c.as_os_str().to_string_lossy().into_owned()).collect()
}

} // verus!
