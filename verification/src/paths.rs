//! Names for what `std::path::Path` makes of a path, and the calls that
//! produce them.

use vstd::prelude::*;
use crate::text::opt_chars;

verus! {

/// What `std::path::Path::file_stem` gives for the path `path`, as text.
pub uninterp spec fn path_file_stem(path: Seq<char>) -> Option<Seq<char>>;

/// What `std::path::Path::extension` gives for the path `path`, as text.
pub uninterp spec fn path_extension(path: Seq<char>) -> Option<Seq<char>>;

/// What `std::path::Path::with_file_name` gives for the path `path` and the
/// file name `name`, as text.
pub uninterp spec fn path_with_file_name(path: Seq<char>, name: Seq<char>) -> Seq<char>;

/// Trusted: `Path::file_stem` of `path`, the stem being taken as text (it
/// is a part of `path`, so it is valid UTF-8). The result is named
/// `path_file_stem`; nothing more is claimed of it.
#[verifier::external_body]
pub(crate) fn file_stem_of(path: &str) -> (r: Option<String>)
    ensures
        opt_chars(r) == path_file_stem(path@),
{
    match std::path::Path::new(path).file_stem() {
        Some(stem) => stem.to_str().map(String::from),
        None => None,
    }
}

/// Trusted: `Path::extension` of `path`, taken as text. The result is named
/// `path_extension`; nothing more is claimed of it.
#[verifier::external_body]
pub(crate) fn extension_of(path: &str) -> (r: Option<String>)
    ensures
        opt_chars(r) == path_extension(path@),
{
    match std::path::Path::new(path).extension() {
        Some(ext) => ext.to_str().map(String::from),
        None => None,
    }
}

/// Trusted: `Path::with_file_name` of `path` and `name`, rendered as text
/// (both inputs are text, so the rendering loses nothing). The result is
/// named `path_with_file_name`; nothing more is claimed of it.
#[verifier::external_body]
pub(crate) fn with_file_name_of(path: &str, name: &str) -> (r: String)
    ensures
        r@ == path_with_file_name(path@, name@),
{
    std::path::Path::new(path).with_file_name(name).to_string_lossy().into_owned()
}

/// What `std::path::Path::file_name` gives for the path `path`, as text.
pub uninterp spec fn path_file_name(path: Seq<char>) -> Option<Seq<char>>;

/// Trusted: `Path::file_name` of `path`, taken as text. The result is named
/// `path_file_name`; nothing more is claimed of it.
#[verifier::external_body]
pub(crate) fn file_name_of(path: &str) -> (r: Option<String>)
    ensures
        opt_chars(r) == path_file_name(path@),
{
    match std::path::Path::new(path).file_name() {
        Some(name) => name.to_str().map(String::from),
        None => None,
    }
}

} // verus!
