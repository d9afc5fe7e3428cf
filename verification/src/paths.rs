//! File-system path types that values of the library carry through unchanged.
use vstd::prelude::*;
use std::path::{Path, PathBuf};

verus! {

/// `std::path::PathBuf`, carried opaquely.
#[verifier::external_type_specification]
#[verifier::external_body]
pub struct ExPathBuf(PathBuf);

/// `std::path::Path`, carried opaquely.
#[verifier::external_type_specification]
#[verifier::external_body]
pub struct ExPath(Path);

/// `PathBuf::clone`: the copy equals the path it was made from.
#[verifier::external_body]
pub(crate) fn clone_path(p: &PathBuf) -> (r: PathBuf)
    ensures
        r == *p,
{
    p.clone()
}

/// `Path::display`, written out as `format!("{}", ..)` writes it. Nothing
/// is stated of the text: it depends on how the platform spells paths.
#[verifier::external_body]
pub(crate) fn display_path(p: &PathBuf) -> (r: String) {
    format!("{}", p.display())
}

/// The paths as `format!("{:?}", ..)` writes a list of them. Nothing is
/// stated of the text: it depends on how the platform spells paths.
#[verifier::external_body]
pub(crate) fn debug_paths(ps: &Vec<PathBuf>) -> (r: String) {
    format!("{:?}", ps)
}

} // verus!
