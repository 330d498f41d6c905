//! The allow-list of image suffixes.

use vstd::prelude::*;

verus! {

/// `path` ends with the characters of `suffix`, compared exactly.
pub open spec fn has_suffix(path: Seq<char>, suffix: Seq<char>) -> bool {
    suffix.is_suffix_of(path)
}

/// `path` ends with one of the image suffixes. The match is literal: no case
/// folding, so `.PNG` is not an image suffix.
pub open spec fn is_image_path(path: Seq<char>) -> bool {
    has_suffix(path, ".png"@) || has_suffix(path, ".jpg"@) || has_suffix(path, ".jpeg"@)
        || has_suffix(path, ".gif"@) || has_suffix(path, ".svg"@) || has_suffix(path, ".webp"@)
        || has_suffix(path, ".bmp"@)
}

/// Calls `str::ends_with` with a string pattern. Trusted: the result is taken
/// to say whether the characters of `suffix` are the last characters of
/// `text`, which is what the standard library documents for a `&str` pattern.
#[verifier::external_body]
pub(crate) fn ends_with(text: &str, suffix: &str) -> (found: bool)
    ensures
        found == has_suffix(text@, suffix@),
{
    text.ends_with(suffix)
}

/// Whether the filter admits `path`.
pub fn admits(path: &str) -> (admitted: bool)
    ensures
        admitted == is_image_path(path@),
{
    ends_with(path, ".png") || ends_with(path, ".jpg") || ends_with(path, ".jpeg") || ends_with(
        path,
        ".gif",
    ) || ends_with(path, ".svg") || ends_with(path, ".webp") || ends_with(path, ".bmp")
}

} // verus!
