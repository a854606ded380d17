//! File-system path syntax, as `std::path` interprets it for the build
//! target. These functions only look at the text of a path; none of them
//! touches the file system.
use vstd::prelude::*;

verus! {

/// `Path::is_absolute` of the path written as `p`.
pub uninterp spec fn absolute(p: Seq<char>) -> bool;

/// Calls `std::path::Path::is_absolute`; its result is named `absolute`.
#[verifier::external_body]
pub(crate) fn is_absolute(p: &str) -> (r: bool)
    ensures
        r == absolute(p@),
{
    std::path::Path::new(p).is_absolute()
}

/// `Path::join`: `p` appended to `base` with the target's separator.
pub uninterp spec fn joined(base: Seq<char>, p: Seq<char>) -> Seq<char>;

/// Calls `std::path::Path::join`; its result is named `joined`.
#[verifier::external_body]
pub(crate) fn join(base: &str, p: &str) -> (r: String)
    ensures
        r@ == joined(base@, p@),
{
    std::path::Path::new(base).join(p).to_string_lossy().into_owned()
}

/// `Path::parent` of `p`.
pub uninterp spec fn parent_of(p: Seq<char>) -> Option<Seq<char>>;

/// Calls `std::path::Path::parent`; its result is named `parent_of`.
#[verifier::external_body]
pub(crate) fn parent(p: &str) -> (r: Option<String>)
    ensures
        match parent_of(p@) {
            Some(q) => r matches Some(s) && s@ == q,
            None => r is None,
        },
{
    match std::path::Path::new(p).parent() {
        Some(q) => Some(q.to_string_lossy().into_owned()),
        None => None,
    }
}

/// `Path::extension` of `p`.
pub uninterp spec fn extension_of(p: Seq<char>) -> Option<Seq<char>>;

/// Calls `std::path::Path::extension`; its result is named `extension_of`.
#[verifier::external_body]
pub(crate) fn extension(p: &str) -> (r: Option<String>)
    ensures
        match extension_of(p@) {
            Some(q) => r matches Some(s) && s@ == q,
            None => r is None,
        },
{
    match std::path::Path::new(p).extension() {
        Some(q) => Some(q.to_string_lossy().into_owned()),
        None => None,
    }
}

} // verus!
