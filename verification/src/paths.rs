//! Trusted bridges to `std::path` for file paths held as UTF-8 strings.
//!
//! Path syntax is platform dependent (separators, prefixes, roots), so the
//! results are named rather than restated; every function here is a function
//! of its arguments alone.

use vstd::prelude::*;

verus! {

/// `Path::is_absolute` of `p`.
pub uninterp spec fn is_absolute_path(p: Seq<char>) -> bool;

/// `Path::join(base, p)`, read back as text.
pub uninterp spec fn joined_path(base: Seq<char>, p: Seq<char>) -> Seq<char>;

/// `Path::parent` of `p`, read back as text.
pub uninterp spec fn parent_path(p: Seq<char>) -> Option<Seq<char>>;

/// `Path::strip_prefix(p, base)`, read back as text (`None` when `base` is
/// not a component-wise prefix of `p`).
pub uninterp spec fn stripped_path(p: Seq<char>, base: Seq<char>) -> Option<Seq<char>>;

/// `Path::new(p).is_absolute()`; the contract ties the answer to the name
/// `is_absolute_path` and claims nothing about path syntax.
#[verifier::external_body]
pub(crate) fn path_is_absolute(p: &str) -> (r: bool)
    ensures
        r == is_absolute_path(p@),
{
    std::path::Path::new(p).is_absolute()
}

/// `Path::new(base).join(p)` as text; the contract ties the result to the
/// name `joined_path` and claims nothing about path syntax.
#[verifier::external_body]
pub(crate) fn path_join(base: &str, p: &str) -> (r: String)
    ensures
        r@ == joined_path(base@, p@),
{
    std::path::Path::new(base).join(p).to_string_lossy().into_owned()
}

/// `Path::new(p).parent()` as text; the contract ties the result to the
/// name `parent_path` and claims nothing about path syntax.
#[verifier::external_body]
pub(crate) fn path_parent(p: &str) -> (r: Option<String>)
    ensures
        match r {
            Some(q) => parent_path(p@) == Some(q@),
            None => parent_path(p@) is None,
        },
{
    std::path::Path::new(p).parent().map(|q| q.to_string_lossy().into_owned())
}

/// `Path::new(p).strip_prefix(base)` as text; the contract ties the result
/// to the name `stripped_path` and claims nothing about path syntax.
#[verifier::external_body]
pub(crate) fn path_strip_prefix(p: &str, base: &str) -> (r: Option<String>)
    ensures
        match r {
            Some(q) => stripped_path(p@, base@) == Some(q@),
            None => stripped_path(p@, base@) is None,
        },
{
    std::path::Path::new(p).strip_prefix(base).ok().map(|q| q.to_string_lossy().into_owned())
}

} // verus!

verus! {

/// `Path::file_name` of `p`, read back as text.
pub uninterp spec fn file_name_of(p: Seq<char>) -> Option<Seq<char>>;

/// `Path::file_stem` of `p`, read back as text.
pub uninterp spec fn file_stem_of(p: Seq<char>) -> Option<Seq<char>>;

/// `Path::extension` of `p`, as text.
pub uninterp spec fn extension_of(p: Seq<char>) -> Option<Seq<char>>;

/// `Path::new(p).file_name()` as text; the contract ties the result to the
/// name `file_name_of` and claims nothing about path syntax.
#[verifier::external_body]
pub(crate) fn path_file_name(p: &str) -> (r: Option<String>)
    ensures
        match r {
            Some(q) => file_name_of(p@) == Some(q@),
            None => file_name_of(p@) is None,
        },
{
    std::path::Path::new(p).file_name().map(|q| q.to_string_lossy().into_owned())
}

/// `Path::new(p).file_stem()` as text; the contract ties the result to the
/// name `file_stem_of` and claims nothing about path syntax.
#[verifier::external_body]
pub(crate) fn path_file_stem(p: &str) -> (r: Option<String>)
    ensures
        match r {
            Some(q) => file_stem_of(p@) == Some(q@),
            None => file_stem_of(p@) is None,
        },
{
    std::path::Path::new(p).file_stem().map(|q| q.to_string_lossy().into_owned())
}

/// `Path::new(p).extension()` as text; the contract ties the result to the
/// name `extension_of` and claims nothing about path syntax.
#[verifier::external_body]
pub(crate) fn path_extension(p: &str) -> (r: Option<String>)
    ensures
        match r {
            Some(q) => extension_of(p@) == Some(q@),
            None => extension_of(p@) is None,
        },
{
    std::path::Path::new(p).extension().and_then(|q| q.to_str()).map(|q| q.to_string())
}

} // verus!
