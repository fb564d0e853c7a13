//! Queries of the file system. What the disk answers is not stated: each
//! answer is only recorded as one the disk gave for the path it was asked
//! about, so that a contract can say which path each answer concerns.

use vstd::prelude::*;

verus! {

/// The disk may answer `answer` when asked by `Path::is_symlink` about `p`.
/// Which answers it may give is not stated.
pub uninterp spec fn symlink_answer(p: Seq<char>, answer: bool) -> bool;

/// The disk may answer `answer` when asked by `Path::exists` about `p`.
/// Which answers it may give is not stated.
pub uninterp spec fn exists_answer(p: Seq<char>, answer: bool) -> bool;

/// The disk may answer `answer` when asked by `Path::is_file` about `p`.
/// Which answers it may give is not stated.
pub uninterp spec fn file_answer(p: Seq<char>, answer: bool) -> bool;

/// The disk may answer `answer` (`None` for a failure) when asked by
/// `Path::canonicalize` for the canonical form of `p`. Which answers it may
/// give is not stated.
pub uninterp spec fn canonical_answer(p: Seq<char>, answer: Option<Seq<char>>) -> bool;

/// `std::path::Path::is_symlink`: whether a symbolic link is at `p`. The
/// contract records only that the answer was given for `p`.
#[verifier::external_body]
pub(crate) fn path_is_symlink(p: &str) -> (r: bool)
    ensures
        symlink_answer(p@, r),
{
    std::path::Path::new(p).is_symlink()
}

/// `std::path::Path::exists`: whether something is at `p`. The contract
/// records only that the answer was given for `p`.
#[verifier::external_body]
pub(crate) fn path_exists(p: &str) -> (r: bool)
    ensures
        exists_answer(p@, r),
{
    std::path::Path::new(p).exists()
}

/// `std::path::Path::is_file`: whether a regular file is at `p`. The
/// contract records only that the answer was given for `p`.
#[verifier::external_body]
pub(crate) fn path_is_file(p: &str) -> (r: bool)
    ensures
        file_answer(p@, r),
{
    std::path::Path::new(p).is_file()
}

/// `std::path::Path::canonicalize`: the canonical, absolute form of `p`, or
/// `None` where that fails or is not UTF-8. The documentation promises an
/// absolute path; which one depends on the disk, and the contract records
/// only that the answer was given for `p`.
#[verifier::external_body]
pub(crate) fn canonicalize(p: &str) -> (r: Option<String>)
    ensures
        canonical_answer(
            p@,
            match r {
                Some(s) => Some(s@),
                None => None,
            },
        ),
        r matches Some(s) ==> crate::paths::is_absolute(s@),
{
    match std::path::Path::new(p).canonicalize() {
        Ok(c) => c.into_os_string().into_string().ok(),
        Err(_) => None,
    }
}

} // verus!
