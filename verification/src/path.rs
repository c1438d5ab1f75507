use std::path::PathBuf;
use vstd::prelude::*;

verus! {

/// `std::path::PathBuf`, carried through the library without a model of
/// its contents.
#[verifier::external_type_specification]
#[verifier::external_body]
pub struct ExPathBuf(std::path::PathBuf);

/// The text that `std::fmt::Debug` writes for a path.
pub uninterp spec fn path_debug(path: PathBuf) -> Seq<char>;

/// Formats a path with `{:?}`, that is with the `std::fmt::Debug` of
/// `std::path::PathBuf`. The contract only names what comes back.
#[verifier::external_body]
pub(crate) fn debug_text(path: &PathBuf) -> (text: String)
    ensures
        text@ == path_debug(*path),
{
    format!("{:?}", path)
}

/// Calls `std::path::Path::exists`. What it returns depends on the file
/// system at the time of the call, so nothing is promised of it.
#[verifier::external_body]
pub(crate) fn path_exists(path: &PathBuf) -> bool {
    path.exists()
}

/// Calls `std::path::Path::is_dir`. What it returns depends on the file
/// system at the time of the call, so nothing is promised of it.
#[verifier::external_body]
pub(crate) fn path_is_dir(path: &PathBuf) -> bool {
    path.is_dir()
}

} // verus!
